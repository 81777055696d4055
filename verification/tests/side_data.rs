use mv_toolkit::motion_vector::{MotionVectorCsvWriter, MvCompactCsvWriter, MvCsvRow, MvWriter};
use mv_toolkit::side_data::{convert_av_mv_compact, write_frame_mvs, write_side_data_compact, AvMotionVectorCompact};

fn compact(source: i32, sx: i16, sy: i16, dx: i16, dy: i16) -> AvMotionVectorCompact {
    AvMotionVectorCompact { source, src_x: sx, src_y: sy, dst_x: dx, dst_y: dy }
}

fn full_row(frame: i32) -> MvCsvRow {
    MvCsvRow {
        frame,
        source: 1,
        w: 8,
        h: 8,
        src_x: "4.0".to_string(),
        src_y: "4.0".to_string(),
        dst_x: "6.0".to_string(),
        dst_y: "4.0".to_string(),
        flags: 0,
        motion_x: "2.0".to_string(),
        motion_y: "0.0".to_string(),
        motion_scale: "1.0".to_string(),
    }
}

#[test]
fn compact_side_data_is_written_in_order() {
    let v = convert_av_mv_compact(7, &compact(-1, 1, 2, 3, 4));
    assert_eq!((v.frame, v.source, v.src_x, v.src_y, v.dst_x, v.dst_y), (7, -1, 1, 2, 3, 4));
    let mut w = MvCompactCsvWriter::new();
    write_side_data_compact(&mut w, 3, &vec![compact(-1, 8, 8, 10, 8), compact(1, -4, 0, 0, 0)]);
    assert_eq!(w.total(), 2);
    assert_eq!(w.flush(), "frame,source,src_x,src_y,dst_x,dst_y\n3,-1,8,8,10,8\n3,1,-4,0,0,0\n");
}

#[test]
fn frame_side_data_goes_to_the_writer_held() {
    let mut c = MvWriter::Compact(MvCompactCsvWriter::new());
    assert!(write_frame_mvs(&mut c, 2, Some(vec![compact(0, 1, 1, 1, 1)]), Some(vec![full_row(2)])));
    assert!(!write_frame_mvs(&mut c, 3, None, Some(vec![full_row(3)])));
    assert_eq!(c.total(), 1);
    assert_eq!(c.flush(), "frame,source,src_x,src_y,dst_x,dst_y\n2,0,1,1,1,1\n");

    let mut f = MvWriter::Full(MotionVectorCsvWriter::new());
    assert!(!write_frame_mvs(&mut f, 2, Some(vec![compact(0, 1, 1, 1, 1)]), None));
    assert!(write_frame_mvs(&mut f, 5, None, Some(vec![full_row(5), full_row(5)])));
    assert_eq!(f.total(), 2);
    assert_eq!(
        f.flush(),
        "frame,source,w,h,src_x,src_y,dst_x,dst_y,flags,motion_x,motion_y,motion_scale\n5,1,8,8,4.0,4.0,6.0,4.0,0x0,2.0,0.0,1.0\n5,1,8,8,4.0,4.0,6.0,4.0,0x0,2.0,0.0,1.0\n"
    );
}
