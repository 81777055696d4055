//! CSV encoding of motion vectors, as written by the extractors.
//!
//! The writers keep the text they produce in memory until it is taken with
//! `flush`, which hands it to whoever owns the output sink. Everything a
//! writer produces, in order, is the CSV header followed by one line per
//! vector written.

use vstd::prelude::*;
use vstd::string::*;
use crate::text::{decimal_text, hex_string, hex_text, int_text, chars_of};
use crate::scan::{TrimSet, trim, trim_chars, has_prefix, starts_with, sub_chars, u64_of, parse_u64_radix};

verus! {

/// Compact motion vector mirroring `AVMotionVectorCompact` from the custom
/// FFmpeg patch: only the two endpoints and the reference direction.
#[derive(Debug, Clone, Copy, Default)]
pub struct MvCompact {
    pub frame: i32,
    pub source: i32,
    pub src_x: i16,
    pub src_y: i16,
    pub dst_x: i16,
    pub dst_y: i16,
}

/// One line of the full motion-vector CSV. The integer columns are kept as
/// integers; the floating-point columns hold their shortest round-trip
/// decimal rendering.
pub struct MvCsvRow {
    pub frame: i32,
    pub source: i32,
    pub w: i32,
    pub h: i32,
    pub src_x: String,
    pub src_y: String,
    pub dst_x: String,
    pub dst_y: String,
    pub flags: u64,
    pub motion_x: String,
    pub motion_y: String,
    pub motion_scale: String,
}

pub open spec fn mv_header() -> Seq<char> {
    "frame,source,w,h,src_x,src_y,dst_x,dst_y,flags,motion_x,motion_y,motion_scale\n"@
}

pub open spec fn compact_header() -> Seq<char> {
    "frame,source,src_x,src_y,dst_x,dst_y\n"@
}

/// The CSV line of a full motion vector; `flags` is written in hexadecimal
/// with a `0x` prefix.
pub open spec fn mv_line(v: MvCsvRow) -> Seq<char> {
    int_text(v.frame as int) + ","@ + int_text(v.source as int) + ","@ + int_text(v.w as int) + ","@
        + int_text(v.h as int) + ","@ + v.src_x@ + ","@ + v.src_y@ + ","@ + v.dst_x@ + ","@ + v.dst_y@
        + ","@ + "0x"@ + hex_text(v.flags as nat) + ","@ + v.motion_x@ + ","@ + v.motion_y@ + ","@
        + v.motion_scale@ + "\n"@
}

/// The CSV line of a compact motion vector.
pub open spec fn compact_line(v: MvCompact) -> Seq<char> {
    int_text(v.frame as int) + ","@ + int_text(v.source as int) + ","@ + int_text(v.src_x as int) + ","@
        + int_text(v.src_y as int) + ","@ + int_text(v.dst_x as int) + ","@ + int_text(v.dst_y as int)
        + "\n"@
}

/// The whole CSV text of a sequence of full motion vectors.
pub open spec fn mv_csv(rows: Seq<MvCsvRow>) -> Seq<char> {
    mv_header() + rows.map_values(|v: MvCsvRow| mv_line(v)).flatten()
}

/// The whole CSV text of a sequence of compact motion vectors.
pub open spec fn compact_csv(rows: Seq<MvCompact>) -> Seq<char> {
    compact_header() + rows.map_values(|v: MvCompact| compact_line(v)).flatten()
}

pub proof fn lemma_csv_push<A>(h: Seq<char>, rows: Seq<A>, f: spec_fn(A) -> Seq<char>, v: A)
    ensures
        h + rows.push(v).map_values(f).flatten() == h + rows.map_values(f).flatten() + f(v),
{
    assert(rows.push(v).map_values(f) =~= rows.map_values(f).push(f(v)));
    rows.map_values(f).lemma_flatten_push(f(v));
    assert(h + rows.push(v).map_values(f).flatten() =~= h + rows.map_values(f).flatten() + f(v));
}

/// The integer columns of a full CSV line, with their separators.
pub open spec fn mv_line_head(v: MvCsvRow) -> Seq<char> {
    int_text(v.frame as int) + ","@ + int_text(v.source as int) + ","@ + int_text(v.w as int) + ","@
        + int_text(v.h as int) + ","@
}

fn mv_line_string(v: &MvCsvRow) -> (res: String)
    ensures
        res@ == mv_line(*v),
{
    let mut w = String::new();
    w.append(decimal_text(v.frame as i128).as_str());
    w.append(",");
    w.append(decimal_text(v.source as i128).as_str());
    w.append(",");
    w.append(decimal_text(v.w as i128).as_str());
    w.append(",");
    w.append(decimal_text(v.h as i128).as_str());
    w.append(",");
    assert(w@ =~= mv_line_head(*v));
    let ghost head = w@;
    w.append(v.src_x.as_str());
    w.append(",");
    w.append(v.src_y.as_str());
    w.append(",");
    w.append(v.dst_x.as_str());
    w.append(",");
    w.append(v.dst_y.as_str());
    w.append(",");
    let ghost mid = w@;
    assert(mid =~= head + v.src_x@ + ","@ + v.src_y@ + ","@ + v.dst_x@ + ","@ + v.dst_y@ + ","@);
    w.append("0x");
    w.append(hex_string(v.flags).as_str());
    w.append(",");
    w.append(v.motion_x.as_str());
    w.append(",");
    w.append(v.motion_y.as_str());
    w.append(",");
    w.append(v.motion_scale.as_str());
    w.append("\n");
    assert(w@ =~= mid + "0x"@ + hex_text(v.flags as nat) + ","@ + v.motion_x@ + ","@ + v.motion_y@ + ","@
        + v.motion_scale@ + "\n"@);
    assert(w@ =~= mv_line(*v));
    w
}

/// Streaming writer of the full motion-vector CSV.
pub struct MotionVectorCsvWriter {
    pending: String,
    total: i64,
    sent: Ghost<Seq<char>>,
    rows: Ghost<Seq<MvCsvRow>>,
}

impl MotionVectorCsvWriter {
    /// Text produced and not yet taken by `flush`.
    pub closed spec fn pending_text(&self) -> Seq<char> {
        self.pending@
    }

    /// Text already taken by `flush`, in order.
    pub closed spec fn flushed_text(&self) -> Seq<char> {
        self.sent@
    }

    /// The vectors written so far, in order.
    pub closed spec fn written(&self) -> Seq<MvCsvRow> {
        self.rows@
    }

    pub closed spec fn wf(&self) -> bool {
        &&& self.sent@ + self.pending@ == mv_csv(self.rows@)
        &&& self.total == self.rows@.len()
    }

    /// A writer whose output starts with the CSV header.
    pub fn new() -> (w: Self)
        ensures
            w.wf(),
            w.written() == Seq::<MvCsvRow>::empty(),
            w.flushed_text() == Seq::<char>::empty(),
            w.pending_text() == mv_header(),
    {
        let mut pending = String::new();
        pending.append("frame,source,w,h,src_x,src_y,dst_x,dst_y,flags,motion_x,motion_y,motion_scale\n");
        let w = MotionVectorCsvWriter { pending, total: 0, sent: Ghost(Seq::empty()), rows: Ghost(Seq::empty()) };
        proof {
            assert(Seq::<MvCsvRow>::empty().map_values(|v: MvCsvRow| mv_line(v)) =~= Seq::<Seq<char>>::empty());
            assert(w.sent@ + w.pending@ =~= mv_csv(w.rows@));
        }
        w
    }

    /// Appends the CSV line of `v`.
    pub fn write(&mut self, v: &MvCsvRow)
        requires
            old(self).wf(),
            old(self).written().len() < i64::MAX,
        ensures
            final(self).wf(),
            final(self).written() == old(self).written().push(*v),
            final(self).flushed_text() == old(self).flushed_text(),
            final(self).pending_text() == old(self).pending_text() + mv_line(*v),
    {
        let line = mv_line_string(v);
        self.pending.append(line.as_str());
        self.total = self.total + 1;
        proof {
            assert(self.pending@ =~= old(self).pending@ + mv_line(*v));
            lemma_csv_push(mv_header(), old(self).rows@, |r: MvCsvRow| mv_line(r), *v);
            self.rows = Ghost(old(self).rows@.push(*v));
            assert(self.sent@ + self.pending@ =~= mv_csv(self.rows@));
        }
    }

    /// Number of vectors written.
    pub fn total(&self) -> (n: i64)
        requires
            self.wf(),
        ensures
            n == self.written().len(),
            n == self.total_count(),
    {
        self.total
    }

    /// Takes the text produced since the last flush, to be written to the
    /// output sink.
    pub fn flush(&mut self) -> (text: String)
        requires
            old(self).wf(),
        ensures
            final(self).wf(),
            text@ == old(self).pending_text(),
            final(self).pending_text() == Seq::<char>::empty(),
            final(self).flushed_text() == old(self).flushed_text() + old(self).pending_text(),
            final(self).written() == old(self).written(),
    {
        let mut text = String::new();
        std::mem::swap(&mut text, &mut self.pending);
        proof {
            self.sent = Ghost(old(self).sent@ + text@);
            assert(self.sent@ + self.pending@ =~= mv_csv(self.rows@));
        }
        text
    }

    /// The count `total` reports.
    pub closed spec fn total_count(&self) -> int {
        self.total as int
    }

    /// A writer made by `new` that then took the rows `rows`, one `write`
    /// each, counts `rows.len()` of them: every write adds one to `total`,
    /// and writing cannot fail.
    pub proof fn lemma_total_counts_writes(fresh: Self, rows: Seq<MvCsvRow>, after: Self)
        requires
            fresh.wf(),
            fresh.written() == Seq::<MvCsvRow>::empty(),
            after.wf(),
            after.written() == fresh.written() + rows,
        ensures
            after.total_count() == rows.len(),
    {
        assert(fresh.written() + rows =~= rows);
    }

    /// Everything the writer has produced, flushed or pending, is the CSV
    /// header followed by the line of every written vector, in write order.
    pub proof fn lemma_output_is_csv(&self)
        requires
            self.wf(),
        ensures
            self.flushed_text() + self.pending_text() == mv_csv(self.written()),
    {
    }
}

/// Streaming writer of the compact motion-vector CSV.
pub struct MvCompactCsvWriter {
    pending: String,
    total: i64,
    sent: Ghost<Seq<char>>,
    rows: Ghost<Seq<MvCompact>>,
}

impl MvCompactCsvWriter {
    /// Text produced and not yet taken by `flush`.
    pub closed spec fn pending_text(&self) -> Seq<char> {
        self.pending@
    }

    /// Text already taken by `flush`, in order.
    pub closed spec fn flushed_text(&self) -> Seq<char> {
        self.sent@
    }

    /// The vectors written so far, in order.
    pub closed spec fn written(&self) -> Seq<MvCompact> {
        self.rows@
    }

    pub closed spec fn wf(&self) -> bool {
        &&& self.sent@ + self.pending@ == compact_csv(self.rows@)
        &&& self.total == self.rows@.len()
    }

    /// A writer whose output starts with the compact CSV header.
    pub fn new() -> (w: Self)
        ensures
            w.wf(),
            w.written() == Seq::<MvCompact>::empty(),
            w.flushed_text() == Seq::<char>::empty(),
            w.pending_text() == compact_header(),
    {
        let mut pending = String::new();
        pending.append("frame,source,src_x,src_y,dst_x,dst_y\n");
        let w = MvCompactCsvWriter { pending, total: 0, sent: Ghost(Seq::empty()), rows: Ghost(Seq::empty()) };
        proof {
            assert(Seq::<MvCompact>::empty().map_values(|v: MvCompact| compact_line(v)) =~= Seq::<Seq<char>>::empty());
            assert(w.sent@ + w.pending@ =~= compact_csv(w.rows@));
        }
        w
    }

    /// Appends the CSV line of `v`.
    pub fn write(&mut self, v: &MvCompact)
        requires
            old(self).wf(),
            old(self).written().len() < i64::MAX,
        ensures
            final(self).wf(),
            final(self).written() == old(self).written().push(*v),
            final(self).flushed_text() == old(self).flushed_text(),
            final(self).pending_text() == old(self).pending_text() + compact_line(*v),
    {
        let w = &mut self.pending;
        w.append(decimal_text(v.frame as i128).as_str());
        w.append(",");
        w.append(decimal_text(v.source as i128).as_str());
        w.append(",");
        w.append(decimal_text(v.src_x as i128).as_str());
        w.append(",");
        w.append(decimal_text(v.src_y as i128).as_str());
        w.append(",");
        w.append(decimal_text(v.dst_x as i128).as_str());
        w.append(",");
        w.append(decimal_text(v.dst_y as i128).as_str());
        w.append("\n");
        self.total = self.total + 1;
        proof {
            assert(self.pending@ =~= old(self).pending@ + compact_line(*v));
            lemma_csv_push(compact_header(), old(self).rows@, |r: MvCompact| compact_line(r), *v);
            self.rows = Ghost(old(self).rows@.push(*v));
            assert(self.sent@ + self.pending@ =~= compact_csv(self.rows@));
        }
    }

    /// Number of vectors written.
    pub fn total(&self) -> (n: i64)
        requires
            self.wf(),
        ensures
            n == self.written().len(),
            n == self.total_count(),
    {
        self.total
    }

    /// Takes the text produced since the last flush, to be written to the
    /// output sink.
    pub fn flush(&mut self) -> (text: String)
        requires
            old(self).wf(),
        ensures
            final(self).wf(),
            text@ == old(self).pending_text(),
            final(self).pending_text() == Seq::<char>::empty(),
            final(self).flushed_text() == old(self).flushed_text() + old(self).pending_text(),
            final(self).written() == old(self).written(),
    {
        let mut text = String::new();
        std::mem::swap(&mut text, &mut self.pending);
        proof {
            self.sent = Ghost(old(self).sent@ + text@);
            assert(self.sent@ + self.pending@ =~= compact_csv(self.rows@));
        }
        text
    }

    /// The count `total` reports.
    pub closed spec fn total_count(&self) -> int {
        self.total as int
    }

    /// A writer made by `new` that then took the rows `rows`, one `write`
    /// each, counts `rows.len()` of them: every write adds one to `total`,
    /// and writing cannot fail.
    pub proof fn lemma_total_counts_writes(fresh: Self, rows: Seq<MvCompact>, after: Self)
        requires
            fresh.wf(),
            fresh.written() == Seq::<MvCompact>::empty(),
            after.wf(),
            after.written() == fresh.written() + rows,
        ensures
            after.total_count() == rows.len(),
    {
        assert(fresh.written() + rows =~= rows);
    }

    /// Everything the writer has produced, flushed or pending, is the CSV
    /// header followed by the line of every written vector, in write order.
    pub proof fn lemma_output_is_csv(&self)
        requires
            self.wf(),
        ensures
            self.flushed_text() + self.pending_text() == compact_csv(self.written()),
    {
    }
}


/// The value of a `flags` CSV field: hexadecimal after a `0x` or `0X` prefix,
/// decimal otherwise, surrounding whitespace ignored.
pub open spec fn flags_value(s: Seq<char>) -> Option<u64> {
    let t = trim(s, TrimSet::Whitespace);
    if has_prefix(t, "0x"@) {
        u64_of(t.subrange("0x"@.len() as int, t.len() as int), 16)
    } else if has_prefix(t, "0X"@) {
        u64_of(t.subrange("0X"@.len() as int, t.len() as int), 16)
    } else {
        u64_of(t, 10)
    }
}

/// Parses a `flags` CSV field, written in hexadecimal by the extractors.
pub fn parse_flags(s: &str) -> (res: Option<u64>)
    ensures
        res == flags_value(s@),
{
    let cs = chars_of(s);
    let t = trim_chars(&cs, &TrimSet::Whitespace);
    let lower = chars_of("0x");
    let upper = chars_of("0X");
    if starts_with(&t, &lower) {
        let rest = sub_chars(&t, lower.len(), t.len());
        parse_u64_radix(&rest, 16)
    } else if starts_with(&t, &upper) {
        let rest = sub_chars(&t, upper.len(), t.len());
        parse_u64_radix(&rest, 16)
    } else {
        parse_u64_radix(&t, 10)
    }
}


/// The writer an extractor holds: full or compact motion vectors.
pub enum MvWriter {
    Full(MotionVectorCsvWriter),
    Compact(MvCompactCsvWriter),
}

impl MvWriter {
    pub open spec fn wf(&self) -> bool {
        match self {
            MvWriter::Full(w) => w.wf(),
            MvWriter::Compact(w) => w.wf(),
        }
    }

    /// Number of vectors written.
    pub open spec fn written_count(&self) -> nat {
        match self {
            MvWriter::Full(w) => w.written().len(),
            MvWriter::Compact(w) => w.written().len(),
        }
    }

    pub open spec fn pending_text(&self) -> Seq<char> {
        match self {
            MvWriter::Full(w) => w.pending_text(),
            MvWriter::Compact(w) => w.pending_text(),
        }
    }

    /// Number of vectors written, whichever the flavour.
    pub fn total(&self) -> (n: i64)
        requires
            self.wf(),
        ensures
            n == self.written_count(),
    {
        match self {
            MvWriter::Full(w) => w.total(),
            MvWriter::Compact(w) => w.total(),
        }
    }

    /// Takes the text produced since the last flush, whichever the flavour.
    pub fn flush(&mut self) -> (text: String)
        requires
            old(self).wf(),
        ensures
            final(self).wf(),
            text@ == old(self).pending_text(),
            final(self).pending_text() == Seq::<char>::empty(),
            final(self).written_count() == old(self).written_count(),
            match (*old(self), *final(self)) {
                (MvWriter::Full(a), MvWriter::Full(b)) => b.flushed_text() == a.flushed_text() + a.pending_text()
                    && b.written() == a.written(),
                (MvWriter::Compact(a), MvWriter::Compact(b)) => b.flushed_text() == a.flushed_text() + a.pending_text()
                    && b.written() == a.written(),
                _ => false,
            },
    {
        match self {
            MvWriter::Full(w) => w.flush(),
            MvWriter::Compact(w) => w.flush(),
        }
    }
}


/// The largest frame number, or 0 when there is none.
pub open spec fn max_frame(frames: Seq<i32>) -> i32
    decreases frames.len(),
{
    if frames.len() == 0 {
        0
    } else {
        let m = max_frame(frames.drop_last());
        if frames.len() == 1 || frames.last() > m {
            frames.last()
        } else {
            m
        }
    }
}

/// The largest frame number among motion vectors given by their frame
/// numbers, or 0 when there are none.
pub fn get_max_frame(frames: &Vec<i32>) -> (res: i32)
    ensures
        res == max_frame(frames@),
        frames@.len() > 0 ==> frames@.contains(res),
        forall|i: int| 0 <= i < frames@.len() ==> frames@[i] <= res,
{
    let mut best: i32 = 0;
    let mut i: usize = 0;
    while i < frames.len()
        invariant
            i <= frames@.len(),
            best == max_frame(frames@.take(i as int)),
            i > 0 ==> frames@.take(i as int).contains(best),
            forall|j: int| 0 <= j < i ==> frames@[j] <= best,
        decreases frames@.len() - i,
    {
        proof {
            assert(frames@.take(i + 1).drop_last() =~= frames@.take(i as int));
            assert(frames@.take(i + 1).last() == frames@[i as int]);
        }
        if i == 0 || frames[i] > best {
            best = frames[i];
        }
        proof {
            if i > 0 && !(frames@[i as int] > max_frame(frames@.take(i as int))) {
                let k = choose|k: int| 0 <= k < i && frames@.take(i as int)[k] == best;
                assert(frames@.take(i + 1)[k] == best);
            } else {
                assert(frames@.take(i + 1)[i as int] == best);
            }
        }
        i += 1;
    }
    proof {
        assert(frames@.take(i as int) =~= frames@);
    }
    best
}

/// Positions of the motion vectors of frame `frame_number`, in order.
pub fn get_frame_vectors(frames: &Vec<i32>, frame_number: i32) -> (res: Vec<usize>)
    ensures
        forall|a: int, b: int| 0 <= a < b < res@.len() ==> (#[trigger] res@[a]) < (#[trigger] res@[b]),
        forall|k: int| 0 <= k < res@.len() ==> (#[trigger] res@[k]) < frames@.len() && frames@[res@[k] as int] == frame_number,
        forall|i: int| 0 <= i < frames@.len() && frames@[i] == frame_number ==> res@.contains(i as usize),
{
    let mut out: Vec<usize> = Vec::new();
    let mut i: usize = 0;
    while i < frames.len()
        invariant
            i <= frames@.len(),
            forall|a: int, b: int| 0 <= a < b < out@.len() ==> (#[trigger] out@[a]) < (#[trigger] out@[b]),
            forall|k: int| 0 <= k < out@.len() ==> (#[trigger] out@[k]) < i && frames@[out@[k] as int] == frame_number,
            forall|j: int| 0 <= j < i && frames@[j] == frame_number ==> out@.contains(j as usize),
        decreases frames@.len() - i,
    {
        if frames[i] == frame_number {
            let ghost before = out@;
            out.push(i);
            proof {
                assert forall|j: int| 0 <= j < i + 1 && frames@[j] == frame_number implies out@.contains(j as usize) by {
                    if j < i {
                        let k = choose|k: int| 0 <= k < before.len() && before[k] == j as usize;
                        assert(out@[k] == j as usize);
                    } else {
                        assert(out@[before.len() as int] == i);
                    }
                }
            }
        }
        i += 1;
    }
    out
}

} // verus!
