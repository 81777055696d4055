use mv_toolkit::csv_read::{read_endpoint_csv, read_mv_csv, CsvError};
use mv_toolkit::motion_vector::{
    get_frame_vectors, get_max_frame, MotionVectorCsvWriter, MvCompact, MvCompactCsvWriter, MvCsvRow, MvWriter,
};

const HEADER: &str = "frame,source,w,h,src_x,src_y,dst_x,dst_y,flags,motion_x,motion_y,motion_scale\n";

fn row(frame: i32, flags: u64, dst_x: &str) -> MvCsvRow {
    MvCsvRow {
        frame,
        source: -1,
        w: 16,
        h: 16,
        src_x: "8.0".to_string(),
        src_y: "8.0".to_string(),
        dst_x: dst_x.to_string(),
        dst_y: "8.0".to_string(),
        flags,
        motion_x: "-6.0".to_string(),
        motion_y: "0.0".to_string(),
        motion_scale: "4.0".to_string(),
    }
}

#[test]
fn full_writer_writes_header_then_rows() {
    let mut w = MotionVectorCsvWriter::new();
    w.write(&row(1, 0, "9.5"));
    w.write(&row(2, 0x1f, "8.0"));
    assert_eq!(w.total(), 2);
    let text = w.flush();
    assert_eq!(
        text,
        format!(
            "{}1,-1,16,16,8.0,8.0,9.5,8.0,0x0,-6.0,0.0,4.0\n2,-1,16,16,8.0,8.0,8.0,8.0,0x1f,-6.0,0.0,4.0\n",
            HEADER
        )
    );
    assert_eq!(w.flush(), "");
    assert_eq!(w.total(), 2);
}

#[test]
fn full_writer_without_rows_writes_only_the_header() {
    let mut w = MotionVectorCsvWriter::new();
    assert_eq!(w.total(), 0);
    assert_eq!(w.flush(), HEADER);
}

#[test]
fn compact_writer_writes_header_then_rows() {
    let mut w = MvCompactCsvWriter::new();
    w.write(&MvCompact { frame: 2, source: 1, src_x: -3, src_y: 4, dst_x: 5, dst_y: -6 });
    let first = w.flush();
    w.write(&MvCompact { frame: i32::MAX, source: -1, src_x: i16::MIN, src_y: i16::MAX, dst_x: 0, dst_y: 0 });
    let second = w.flush();
    assert_eq!(first, "frame,source,src_x,src_y,dst_x,dst_y\n2,1,-3,4,5,-6\n");
    assert_eq!(second, "2147483647,-1,-32768,32767,0,0\n");
    assert_eq!(w.total(), 2);
}

#[test]
fn mv_writer_dispatches_on_its_flavour() {
    let mut full = MvWriter::Full(MotionVectorCsvWriter::new());
    let mut compact = MvWriter::Compact(MvCompactCsvWriter::new());
    if let MvWriter::Compact(w) = &mut compact {
        w.write(&MvCompact::default());
    }
    assert_eq!(full.total(), 0);
    assert_eq!(compact.total(), 1);
    assert_eq!(full.flush(), HEADER);
    assert_eq!(compact.flush(), "frame,source,src_x,src_y,dst_x,dst_y\n0,0,0,0,0,0\n");
}

fn some(s: &str) -> Option<String> {
    Some(s.to_string())
}

#[test]
fn written_csv_reads_back_field_by_field() {
    let mut w = MotionVectorCsvWriter::new();
    w.write(&row(1, 0, "9.5"));
    w.write(&row(-4, 0xabc, "1e-7"));
    let text = w.flush();
    let rows = read_mv_csv(&text).unwrap();
    assert_eq!(rows.len(), 2);
    assert_eq!(
        rows[0],
        vec![
            some("1"), some("-1"), some("16"), some("16"), some("8.0"), some("8.0"), some("9.5"), some("8.0"),
            some("0x0"), some("-6.0"), some("0.0"), some("4.0"),
        ]
    );
    assert_eq!(rows[1][0], some("-4"));
    assert_eq!(rows[1][6], some("1e-7"));
    assert_eq!(rows[1][8], some("0xabc"));
}

#[test]
fn read_mv_csv_follows_the_header_and_skips_blank_lines() {
    let text = "src_y, frame ,src_x\r\n3,1\n\n  \n5,6,7,8\n";
    let rows = read_mv_csv(text).unwrap();
    assert_eq!(rows.len(), 2);
    let mut first = vec![None; 12];
    first[0] = some("1");
    first[5] = some("3");
    assert_eq!(rows[0], first);
    let mut second = vec![None; 12];
    second[0] = some("6");
    second[4] = some("7");
    second[5] = some("5");
    assert_eq!(rows[1], second);
}

#[test]
fn read_mv_csv_reports_each_error() {
    assert_eq!(read_mv_csv(""), Err(CsvError::Empty));
    assert_eq!(read_mv_csv("a,b\n1,2\n"), Err(CsvError::MissingFrame));
    assert_eq!(read_mv_csv("frame\n1\n"), Err(CsvError::MissingSrcX));
    assert_eq!(read_mv_csv("frame,src_x\n1,2"), Err(CsvError::MissingSrcY));
    assert_eq!(CsvError::Empty.message(), "Empty CSV file");
    assert_eq!(CsvError::MissingFrame.message(), "Missing 'frame' column");
    assert_eq!(CsvError::MissingSrcX.message(), "Missing 'src_x' column");
    assert_eq!(CsvError::MissingSrcY.message(), "Missing 'src_y' column");
}

#[test]
fn read_mv_csv_header_only_gives_no_rows() {
    assert_eq!(read_mv_csv(HEADER).unwrap().len(), 0);
    assert_eq!(read_mv_csv("\nframe,src_x,src_y"), Err(CsvError::MissingFrame));
}

#[test]
fn get_max_frame_is_the_largest_or_zero() {
    assert_eq!(get_max_frame(&vec![3, 7, -1]), 7);
    assert_eq!(get_max_frame(&vec![]), 0);
    assert_eq!(get_max_frame(&vec![-5, -2]), -2);
}

#[test]
fn get_frame_vectors_keeps_the_frame_in_order() {
    assert_eq!(get_frame_vectors(&vec![1, 2, 1, 3], 1), vec![0, 2]);
    assert_eq!(get_frame_vectors(&vec![1, 2], 9), Vec::<usize>::new());
}

#[test]
fn endpoint_csv_needs_destination_columns() {
    assert_eq!(read_endpoint_csv("frame,src_x,src_y\n1,2,3\n"), Err(CsvError::MissingDstX));
    assert_eq!(read_endpoint_csv("frame,src_x,src_y,dst_x\n1,2,3,4\n"), Err(CsvError::MissingDstY));
    assert_eq!(read_endpoint_csv("frame,src_x\n1,2"), Err(CsvError::MissingSrcY));
    assert_eq!(CsvError::MissingDstX.message(), "Missing 'dst_x' column");
    let rows = read_endpoint_csv("dst_y,frame,src_x,src_y,dst_x\n5, 1,2,3,4\n\n").unwrap();
    assert_eq!(rows.len(), 1);
    assert_eq!(rows[0][6], Some("4".to_string()));
    assert_eq!(rows[0][7], Some("5".to_string()));
    assert_eq!(rows[0][0], Some(" 1".to_string()));
}
