use mv_toolkit::key::Key;
use mv_toolkit::mv_compare::{compare_dumps, compare_frames, compare_value_columns, format_results, is_zero_size, FloatField, MvRow};
use mv_toolkit::mv_diff::list0_diff;

fn field(v: f64) -> FloatField {
    let class = if v.is_nan() { None } else if v == 0.0 { Some(0) } else { Some(v.to_bits()) };
    FloatField { eq_class: class, text: format!("{}", v) }
}

fn mv(frame: i32, source: i32, sx: f64, sy: f64, dx: f64, dy: f64) -> MvRow {
    mv_with_values(frame, source, sx, sy, dx, dy, 16, 16, 0.0, 0.0, 1.0)
}

#[allow(clippy::too_many_arguments)]
fn mv_with_values(
    frame: i32,
    source: i32,
    sx: f64,
    sy: f64,
    dx: f64,
    dy: f64,
    w: i32,
    h: i32,
    motion_x: f64,
    motion_y: f64,
    motion_scale: f64,
) -> MvRow {
    MvRow {
        key: Key { frame, src_x: sx as i64, src_y: sy as i64, dst_x: dx as i64, dst_y: dy as i64, source },
        src_x: field(sx),
        src_y: field(sy),
        dst_x: field(dx),
        dst_y: field(dy),
        w: field(w as f64),
        h: field(h as f64),
        motion_x: field(motion_x),
        motion_y: field(motion_y),
        motion_scale: field(motion_scale),
    }
}

fn messages(d: &[(Key, String)]) -> Vec<String> {
    d.iter().map(|x| x.1.clone()).collect()
}

#[test]
fn identical_dumps_have_no_differences() {
    let a = vec![mv(1, -1, 0.0, 0.0, 4.0, 2.0), mv(1, -1, 0.0, 0.0, 4.0, 2.0), mv(2, 1, 8.0, 8.0, 9.0, 8.0)];
    assert!(compare_frames(&a, &a).is_empty());
    assert_eq!(format_results(&compare_frames(&a, &a)), "No differences found in frames in all frames.\n");
}

#[test]
fn missing_keys_are_reported_on_their_side() {
    let a = vec![mv(2, -1, 0.0, 0.0, 4.0, 2.0)];
    let b = vec![mv(1, -1, 1.0, 1.0, 3.0, 3.0)];
    let d = compare_frames(&a, &b);
    assert_eq!(
        messages(&d),
        vec![
            "Frame 1 src=(1,1) dst=(3,3) source=-1: missing in first file".to_string(),
            "Frame 2 src=(0,0) dst=(4,2) source=-1: missing in second file".to_string(),
        ]
    );
    assert_eq!(d[0].0, Key { frame: 1, src_x: 1, src_y: 1, dst_x: 3, dst_y: 3, source: -1 });
}

#[test]
fn extra_rows_and_differing_coordinates_are_reported() {
    let a = vec![mv(1, -1, 0.5, 0.0, 4.0, 2.0), mv(1, -1, 0.0, 0.0, 4.0, 2.0)];
    let b = vec![mv(1, -1, 0.0, 0.0, 4.0, 2.0), mv(1, -1, 0.0, 0.0, 4.25, 2.0), mv(1, -1, 0.0, 0.0, 4.0, 2.0)];
    let d = compare_frames(&a, &b);
    assert_eq!(
        messages(&d),
        vec![
            "Frame 1 src=(0,0) dst=(4,2) source=-1: 'src_x' differs (first=0.5, second=0)".to_string(),
            "Frame 1 src=(0,0) dst=(4,2) source=-1: 'dst_x' differs (first=4, second=4.25)".to_string(),
            "Frame 1 src=(0,0) dst=(4,2) source=-1: extra row in second file (index 2)".to_string(),
        ]
    );
    let e = compare_frames(&b, &a);
    assert_eq!(e.len(), 3);
    assert_eq!(e[2].1, "Frame 1 src=(0,0) dst=(4,2) source=-1: extra row in first file (index 2)");
}

#[test]
fn comparing_the_other_way_mirrors_each_line() {
    let a = vec![mv(1, -1, 0.5, 0.0, 4.0, 2.0), mv(1, -1, 0.0, 0.0, 4.0, 2.0), mv(3, 1, 1.0, 1.0, 2.0, 2.0)];
    let b = vec![mv(1, -1, 0.0, 0.0, 4.0, 2.0), mv(2, -1, 0.0, 0.0, 4.0, 2.0)];
    let ab = compare_frames(&a, &b);
    let ba = compare_frames(&b, &a);
    assert_eq!(
        messages(&ab),
        vec![
            "Frame 1 src=(0,0) dst=(4,2) source=-1: 'src_x' differs (first=0.5, second=0)".to_string(),
            "Frame 1 src=(0,0) dst=(4,2) source=-1: extra row in first file (index 1)".to_string(),
            "Frame 2 src=(0,0) dst=(4,2) source=-1: missing in first file".to_string(),
            "Frame 3 src=(1,1) dst=(2,2) source=1: missing in second file".to_string(),
        ]
    );
    assert_eq!(
        messages(&ba),
        vec![
            "Frame 1 src=(0,0) dst=(4,2) source=-1: 'src_x' differs (first=0, second=0.5)".to_string(),
            "Frame 1 src=(0,0) dst=(4,2) source=-1: extra row in second file (index 1)".to_string(),
            "Frame 2 src=(0,0) dst=(4,2) source=-1: missing in second file".to_string(),
            "Frame 3 src=(1,1) dst=(2,2) source=1: missing in first file".to_string(),
        ]
    );
    let keys_ab: Vec<Key> = ab.iter().map(|d| d.0).collect();
    let keys_ba: Vec<Key> = ba.iter().map(|d| d.0).collect();
    assert_eq!(keys_ab, keys_ba);
}

#[test]
fn zero_size_vectors_are_ignored() {
    let z = mv(5, 1, 3.0, 3.0, 3.0, 3.0);
    assert!(is_zero_size(&z));
    assert!(!is_zero_size(&mv(5, 1, 3.0, 3.0, 3.0, 4.0)));
    assert!(compare_frames(&vec![z], &vec![]).is_empty());
    let nan = mv(5, 1, f64::NAN, 0.0, f64::NAN, 0.0);
    assert!(!is_zero_size(&nan));
    assert_eq!(compare_frames(&vec![nan], &vec![]).len(), 1);
}

#[test]
fn negative_zero_equals_zero() {
    let a = vec![mv(1, -1, -0.0, 0.0, 4.0, 2.0)];
    let b = vec![mv(1, -1, 0.0, 0.0, 4.0, 2.0)];
    assert!(compare_frames(&a, &b).is_empty());
}

#[test]
fn nan_never_compares_equal() {
    let a = vec![mv(1, -1, 0.0, 0.0, f64::NAN, 2.0)];
    let d = compare_frames(&a, &a);
    assert_eq!(messages(&d), vec!["Frame 1 src=(0,0) dst=(0,2) source=-1: 'dst_x' differs (first=NaN, second=NaN)".to_string()]);
}

#[test]
fn differences_come_in_key_order() {
    let a = vec![mv(3, -1, 0.0, 0.0, 1.0, 0.0), mv(1, 1, 0.0, 0.0, 1.0, 0.0), mv(1, -1, 0.0, 0.0, 1.0, 0.0), mv(2, -1, 5.0, 0.0, 1.0, 0.0)];
    let d = compare_frames(&a, &vec![]);
    let keys: Vec<Key> = d.iter().map(|x| x.0).collect();
    for w in keys.windows(2) {
        assert!(w[0] < w[1]);
    }
    assert_eq!(keys.len(), 4);
    assert_eq!(keys[0].source, -1);
    assert_eq!(keys[1].source, 1);
}

#[test]
fn difference_count_is_symmetric() {
    let a = vec![mv(1, -1, 0.5, 0.0, 4.0, 2.0), mv(2, -1, 0.0, 0.0, 1.0, 2.0), mv(2, -1, 0.0, 0.0, 1.0, 2.0)];
    let b = vec![mv(1, -1, 0.0, 0.0, 4.0, 2.0), mv(3, -1, 0.0, 0.0, 4.25, 2.0)];
    assert_eq!(compare_frames(&a, &b).len(), compare_frames(&b, &a).len());
}

#[test]
fn format_results_writes_one_line_per_difference() {
    let k = Key { frame: 1, src_x: 0, src_y: 0, dst_x: 1, dst_y: 1, source: -1 };
    let d = vec![(k, "first".to_string()), (k, "second".to_string())];
    assert_eq!(format_results(&d), "first\nsecond\n");
}

#[test]
fn list0_diff_remaps_and_trims_the_second_dump() {
    let m0 = vec![mv(0, -1, 0.0, 0.0, 1.0, 0.0), mv(1, -1, 0.0, 0.0, 2.0, 0.0), mv(1, 1, 0.0, 0.0, 3.0, 0.0)];
    // decode order 0,1,2 has display ranks 0,2,1
    let rank_of = vec![0, 2, 1];
    let m9 = vec![mv(0, -1, 0.0, 0.0, 1.0, 0.0), mv(2, -1, 0.0, 0.0, 2.0, 0.0), mv(1, -1, 0.0, 0.0, 9.0, 0.0), mv(7, -1, 0.0, 0.0, 2.0, 0.0)];
    let (summary, diffs) = list0_diff(&m0, &m9, &rank_of);
    assert_eq!(summary.method0_rows, 2);
    // frame 1 becomes rank 2 (> max frame 1) and is dropped; frame 7 has no rank and is dropped
    assert_eq!(summary.method9_rows, 2);
    assert_eq!(summary.diffs, 0);
    assert!(diffs.is_empty());
}

#[test]
fn list0_diff_counts_leave_out_zero_size_vectors() {
    let m0 = vec![mv(0, -1, 0.0, 0.0, 1.0, 0.0), mv(0, -1, 3.0, 3.0, 3.0, 3.0)];
    let m9 = vec![mv(0, -1, 0.0, 0.0, 1.0, 0.0), mv(0, -1, 5.0, 5.0, 5.0, 5.0), mv(0, -1, 6.0, 6.0, 6.0, 6.0)];
    let (summary, diffs) = list0_diff(&m0, &m9, &vec![0]);
    assert_eq!((summary.method0_rows, summary.method9_rows, summary.diffs), (1, 1, 0));
    assert!(diffs.is_empty());
}

#[test]
fn dump_comparison_restricted_to_list0() {
    let first = vec![mv(1, -1, 0.0, 0.0, 2.0, 0.0), mv(1, 1, 4.0, 4.0, 6.0, 4.0), mv(2, -1, 3.0, 3.0, 3.0, 3.0)];
    let second = vec![mv(1, -1, 0.0, 0.0, 2.0, 0.0), mv(2, 1, 8.0, 8.0, 9.0, 8.0)];
    let c = compare_dumps(first, second, true);
    assert_eq!((c.first_rows, c.second_rows), (1, 1));
    assert!(c.diffs.is_empty());
    let first = vec![mv(1, -1, 0.0, 0.0, 2.0, 0.0), mv(1, 1, 4.0, 4.0, 6.0, 4.0), mv(2, -1, 3.0, 3.0, 3.0, 3.0)];
    let second = vec![mv(1, -1, 0.0, 0.0, 2.0, 0.0), mv(2, 1, 8.0, 8.0, 9.0, 8.0)];
    let c = compare_dumps(first, second, false);
    assert_eq!((c.first_rows, c.second_rows), (2, 2));
    assert_eq!(
        messages(&c.diffs),
        vec![
            "Frame 1 src=(4,4) dst=(6,4) source=1: missing in second file".to_string(),
            "Frame 2 src=(8,8) dst=(9,8) source=1: missing in first file".to_string(),
        ]
    );
}

#[test]
fn value_columns_report_block_size_and_motion_differences() {
    let a = vec![mv_with_values(3, -1, 0.0, 0.0, 4.0, 2.0, 16, 16, -8.0, 4.0, 4.0)];
    let b = vec![mv_with_values(3, -1, 0.0, 0.0, 4.0, 2.0, 8, 16, -8.0, 4.5, 4.0)];
    let d = compare_value_columns(&a, &b);
    assert_eq!(
        messages(&d),
        vec![
            "Frame 3 src=(0,0) dst=(4,2) source=-1: 'w' differs (first=16, second=8)".to_string(),
            "Frame 3 src=(0,0) dst=(4,2) source=-1: 'motion_y' differs (first=4, second=4.5)".to_string(),
        ]
    );
    // the endpoint comparison of the same dumps sees nothing
    assert!(compare_frames(&a, &b).is_empty());
}

#[test]
fn value_columns_keep_zero_size_vectors() {
    let a = vec![mv_with_values(1, 1, 5.0, 5.0, 5.0, 5.0, 16, 16, 0.0, 0.0, 4.0)];
    let b: Vec<MvRow> = Vec::new();
    assert_eq!(
        messages(&compare_value_columns(&a, &b)),
        vec!["Frame 1 src=(5,5) dst=(5,5) source=1: missing in second file".to_string()]
    );
    assert!(compare_frames(&a, &b).is_empty());
}

#[test]
fn value_columns_of_identical_dumps_agree() {
    let a = vec![
        mv_with_values(1, -1, 0.0, 0.0, 4.0, 2.0, 16, 8, 2.0, 1.0, 2.0),
        mv_with_values(1, -1, 0.0, 0.0, 4.0, 2.0, 8, 8, 2.0, 1.0, 2.0),
    ];
    assert!(compare_value_columns(&a, &a).is_empty());
    let b = vec![mv_with_values(1, -1, 0.0, 0.0, 4.0, 2.0, 16, 8, 2.0, 1.0, 2.0)];
    let d = compare_value_columns(&a, &b);
    assert_eq!(
        messages(&d),
        vec!["Frame 1 src=(0,0) dst=(4,2) source=-1: extra row in first file (index 1)".to_string()]
    );
}
