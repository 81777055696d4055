//! Motion vectors as the custom FFmpeg hands them over in a decoded frame's
//! side data, and how an extractor writes a frame's motion vectors.

use vstd::prelude::*;
use crate::motion_vector::{MvCompact, MvCompactCsvWriter, MvCsvRow, MvWriter};

verus! {

broadcast use vstd::seq_lib::group_seq_lib_default;

/// The fields of the custom FFmpeg's `AVMotionVectorCompact`.
#[derive(Clone, Copy)]
pub struct AvMotionVectorCompact {
    pub source: i32,
    pub src_x: i16,
    pub src_y: i16,
    pub dst_x: i16,
    pub dst_y: i16,
}

/// The compact CSV row of the custom FFmpeg's motion vector of frame
/// `frame_num`.
pub fn convert_av_mv_compact(frame_num: i32, mv: &AvMotionVectorCompact) -> (res: MvCompact)
    ensures
        res == (MvCompact { frame: frame_num, source: mv.source, src_x: mv.src_x, src_y: mv.src_y, dst_x: mv.dst_x, dst_y: mv.dst_y }),
{
    MvCompact { frame: frame_num, source: mv.source, src_x: mv.src_x, src_y: mv.src_y, dst_x: mv.dst_x, dst_y: mv.dst_y }
}

pub open spec fn compact_row(frame_num: i32) -> spec_fn(AvMotionVectorCompact) -> MvCompact {
    |mv: AvMotionVectorCompact| MvCompact { frame: frame_num, source: mv.source, src_x: mv.src_x, src_y: mv.src_y, dst_x: mv.dst_x, dst_y: mv.dst_y }
}

/// Writes the compact rows of a frame's motion vectors, in order.
pub fn write_side_data_compact(writer: &mut MvCompactCsvWriter, frame_num: i32, mvs: &Vec<AvMotionVectorCompact>)
    requires
        old(writer).wf(),
        old(writer).written().len() + mvs@.len() < i64::MAX,
    ensures
        final(writer).wf(),
        final(writer).flushed_text() == old(writer).flushed_text(),
        final(writer).written() == old(writer).written() + mvs@.map_values(compact_row(frame_num)),
{
    let ghost start = writer.written();
    let mut i: usize = 0;
    while i < mvs.len()
        invariant
            i <= mvs@.len(),
            writer.wf(),
            writer.flushed_text() == old(writer).flushed_text(),
            start == old(writer).written(),
            start.len() + mvs@.len() < i64::MAX,
            writer.written() == start + mvs@.take(i as int).map_values(compact_row(frame_num)),
        decreases mvs@.len() - i,
    {
        let row = convert_av_mv_compact(frame_num, &mvs[i]);
        writer.write(&row);
        proof {
            assert(mvs@.take(i + 1).map_values(compact_row(frame_num)) =~= mvs@.take(i as int).map_values(
                compact_row(frame_num),
            ).push(row));
            assert(writer.written() =~= start + mvs@.take(i + 1).map_values(compact_row(frame_num)));
        }
        i += 1;
    }
    proof {
        assert(mvs@.take(i as int) =~= mvs@);
    }
}


/// Writes a decoded frame's motion vectors with the writer the extractor
/// holds: a compact writer takes the frame's compact side data, a full one
/// the rows of its full side data (`None` where the frame has no such side
/// data). Says whether there was side data for the writer.
pub fn write_frame_mvs(
    writer: &mut MvWriter,
    frame_num: i32,
    compact: Option<Vec<AvMotionVectorCompact>>,
    full_rows: Option<Vec<MvCsvRow>>,
) -> (found: bool)
    requires
        old(writer).wf(),
        old(writer).written_count() + match (compact, full_rows) {
            (Some(c), Some(f)) => (c@.len() + f@.len()) as int,
            (Some(c), None) => c@.len() as int,
            (None, Some(f)) => f@.len() as int,
            (None, None) => 0,
        } < i64::MAX,
    ensures
        final(writer).wf(),
        match (*old(writer), *final(writer)) {
            (MvWriter::Compact(a), MvWriter::Compact(b)) => match compact {
                Some(c) => found && b.written() == a.written() + c@.map_values(compact_row(frame_num))
                    && b.flushed_text() == a.flushed_text(),
                None => !found && b == a,
            },
            (MvWriter::Full(a), MvWriter::Full(b)) => match full_rows {
                Some(f) => found && b.written() == a.written() + f@ && b.flushed_text() == a.flushed_text(),
                None => !found && b == a,
            },
            _ => false,
        },
{
    match writer {
        MvWriter::Compact(w) => match compact {
            Some(c) => {
                write_side_data_compact(w, frame_num, &c);
                true
            },
            None => false,
        },
        MvWriter::Full(w) => match full_rows {
            Some(rows) => {
                let ghost start = w.written();
                let mut i: usize = 0;
                while i < rows.len()
                    invariant
                        i <= rows@.len(),
                        w.wf(),
                        w.flushed_text() == old(writer)->Full_0.flushed_text(),
                        start == old(writer)->Full_0.written(),
                        start.len() + rows@.len() < i64::MAX,
                        w.written() == start + rows@.take(i as int),
                    decreases rows@.len() - i,
                {
                    w.write(&rows[i]);
                    proof {
                        assert(rows@.take(i + 1) =~= rows@.take(i as int).push(rows@[i as int]));
                        assert(w.written() =~= start + rows@.take(i + 1));
                    }
                    i += 1;
                }
                proof {
                    assert(rows@.take(i as int) =~= rows@);
                }
                true
            },
            None => false,
        },
    }
}

} // verus!
