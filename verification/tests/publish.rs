use mv_toolkit::publish::{commit_url_for_timestamp, get_ffmpeg_commit_history, last_in_order, parse_env_file};
use mv_toolkit::report_names::{
    detail_tables, detail_tables_from, folder_date_from, folder_date_text, folder_stamp_time, generate_report_title, parse_folder_timestamp,
    StampTime,
    report_title_from,
};

fn commits() -> Vec<(i64, String)> {
    vec![(100, "aaa".to_string()), (200, "bbb".to_string()), (300, "ccc".to_string())]
}

#[test]
fn commit_url_is_the_last_commit_not_after_the_run() {
    let c = commits();
    assert_eq!(commit_url_for_timestamp(&c, "https://x/repo.git", 250), Some("https://x/repo/commit/bbb".to_string()));
    assert_eq!(commit_url_for_timestamp(&c, "https://x/repo", 300), Some("https://x/repo/commit/ccc".to_string()));
    assert_eq!(commit_url_for_timestamp(&c, "https://x/repo.git.git", 1000), Some("https://x/repo/commit/ccc".to_string()));
}

#[test]
fn commit_url_falls_back_to_the_earliest_commit() {
    assert_eq!(commit_url_for_timestamp(&commits(), "r", 50), Some("r/commit/aaa".to_string()));
    assert_eq!(commit_url_for_timestamp(&[], "r", 50), None);
}

#[test]
fn commit_history_is_sorted_stably_by_time() {
    let log = "300 c\n100 a\nbad line\n200 b\n100 a2\nnospace\n-5 neg";
    let h = get_ffmpeg_commit_history(log);
    assert_eq!(
        h,
        vec![
            (-5, "neg".to_string()),
            (100, "a".to_string()),
            (100, "a2".to_string()),
            (200, "b".to_string()),
            (300, "c".to_string()),
        ]
    );
    assert!(get_ffmpeg_commit_history("").is_empty());
    assert_eq!(get_ffmpeg_commit_history("7 h with spaces\r\n"), vec![(7, "h with spaces".to_string())]);
}

#[test]
fn env_file_assignments() {
    let e = parse_env_file("# comment\nKEY = \"v\"\n\n X='y' \n=bad\nnoeq\nQ=\"'both'\"\nEMPTY=\n");
    assert_eq!(
        e,
        vec![
            ("KEY".to_string(), "v".to_string()),
            ("X".to_string(), "y".to_string()),
            ("Q".to_string(), "both".to_string()),
            ("EMPTY".to_string(), "".to_string()),
        ]
    );
}

fn title(s: &str) -> Option<String> {
    Some(s.to_string())
}

#[test]
fn report_titles_from_folder_stamps() {
    assert_eq!(generate_report_title("/r/bulk/20240131_0915_vid_t4"), title("Automated Report: 2024-01-31 09:15:00"));
    assert_eq!(generate_report_title("results/plain"), title("Automated Report: plain"));
    assert_eq!(generate_report_title("x/run_20240131_0915"), title("Automated Report: 2024-01-31 09:15:00"));
    assert_eq!(generate_report_title("x/2024013_0915"), title("Automated Report: 2024013_0915"));
    assert_eq!(generate_report_title("a/20240131_0915/"), title("Automated Report: 2024-01-31 09:15:00"));
    assert_eq!(generate_report_title(""), title("Automated Report: "));
}

#[test]
fn report_titles_cut_unicode_digits_by_bytes() {
    // Arabic-Indic digits take two bytes each: the cuts fall between characters.
    assert_eq!(
        generate_report_title("x/\u{662}\u{660}\u{662}\u{664}\u{660}\u{661}\u{663}\u{661}_0915"),
        title("Automated Report: \u{662}\u{660}-\u{662}-\u{664}\u{660}\u{661}\u{663}\u{661} 09:15:00")
    );
    // Devanagari digits take three: the fourth byte is inside a character.
    assert_eq!(
        generate_report_title("x/\u{966}\u{967}\u{968}\u{969}\u{96a}\u{96b}\u{96c}\u{96d}_0915"),
        None
    );
}

fn groups(g: &[Option<&str>]) -> Option<Vec<Option<String>>> {
    Some(g.iter().map(|x| x.map(|s| s.to_string())).collect())
}

#[test]
fn report_title_from_given_stamp_groups() {
    let caps = groups(&[Some("20240131_0915"), Some("20240131"), Some("0915")]);
    assert_eq!(report_title_from("n", &caps), title("Automated Report: 2024-01-31 09:15:00"));
    assert_eq!(report_title_from("n", &None), title("Automated Report: n"));
    assert_eq!(report_title_from("n", &groups(&[Some("x"), Some("20240131")])), title("Automated Report: n"));
    assert_eq!(report_title_from("n", &groups(&[Some("x"), Some("2024"), Some("0915")])), None);
    assert_eq!(report_title_from("n", &groups(&[Some("x"), Some("abcdefgh"), Some("wxyz")])), title("Automated Report: abcd-ef-gh wx:yz:00"));
}

#[test]
fn folder_date_from_given_stamp_groups() {
    assert_eq!(folder_date_from(&groups(&[Some("x"), Some("20240131"), Some("0915")])), Some("20240131 0915".to_string()));
    assert_eq!(folder_date_from(&groups(&[Some("x"), None, Some("0915")])), None);
    assert_eq!(folder_date_from(&None), None);
}

#[test]
fn detail_tables_from_given_searches() {
    let searched = vec![
        ("b.png".to_string(), groups(&[Some("m"), Some("12")])),
        ("a.png".to_string(), None),
        ("c.png".to_string(), groups(&[Some("m"), Some("3")])),
        ("d.png".to_string(), groups(&[Some("m"), Some("\u{663}")])),
        ("e.png".to_string(), groups(&[Some("m"), Some("3")])),
    ];
    assert_eq!(
        detail_tables_from(&searched),
        vec![
            (0, "d.png".to_string()),
            (3, "c.png".to_string()),
            (3, "e.png".to_string()),
            (12, "b.png".to_string()),
        ]
    );
}

#[test]
fn folder_dates_need_a_leading_stamp() {
    assert_eq!(folder_date_text("20240131_0915_vid"), Some("20240131 0915".to_string()));
    assert_eq!(folder_date_text("run_20240131_0915"), None);
    assert_eq!(folder_date_text("20240131-0915"), None);
}

#[test]
fn folder_timestamps() {
    assert_eq!(parse_folder_timestamp("nope"), None);
    assert_eq!(parse_folder_timestamp("20241331_0915"), None);
    assert_eq!(parse_folder_timestamp("20240131_2515"), None);
    let a = parse_folder_timestamp("20240131_0915_vid").unwrap();
    let b = parse_folder_timestamp("20240131_1015").unwrap();
    assert_eq!(b - a, 3600);
    // chrono refuses a day the month does not have
    assert_eq!(parse_folder_timestamp("20230229_1200"), None);
    assert!(parse_folder_timestamp("20240229_1200").is_some());
    assert_eq!(parse_folder_timestamp("20240431_1200"), None);
    assert_eq!(parse_folder_timestamp("20240430_1260"), None);
    // within a day of the stamp read as UTC, whatever the time zone
    assert!((a - 1_706_692_500).abs() < 86_400);
    // digits of another script match the stamp pattern but are not read
    assert_eq!(parse_folder_timestamp("\u{662}\u{660}\u{662}\u{664}\u{660}\u{661}\u{663}\u{661}_\u{660}\u{669}\u{661}\u{665}"), None);
}

#[test]
fn detail_tables_by_stream_count() {
    let names: Vec<String> = [
        "detail_table_10streams.png",
        "x.png",
        "detail_table_1streams.png",
        "detail_table_1streams_highlighted.png",
        "detail_table_99999999999streams.png",
        "old_detail_table_3streams.png.bak",
        "detail_table_streams.png",
    ]
    .iter()
    .map(|s| s.to_string())
    .collect();
    assert_eq!(
        detail_tables(&names),
        vec![
            (0, "detail_table_99999999999streams.png".to_string()),
            (1, "detail_table_1streams.png".to_string()),
            (3, "old_detail_table_3streams.png.bak".to_string()),
            (10, "detail_table_10streams.png".to_string()),
        ]
    );
}

#[test]
fn last_in_order_is_the_greatest_name_latest_among_equals() {
    let names: Vec<String> = ["20240131_0915_a", "20240201_0800", "20240131_1000", "20240201_0800", "2024"]
        .iter()
        .map(|s| s.to_string())
        .collect();
    assert_eq!(last_in_order(&names), Some(3));
    let names: Vec<String> = ["b", "ab", "a", "\u{e9}", "z"].iter().map(|s| s.to_string()).collect();
    assert_eq!(last_in_order(&names), Some(3));
    assert_eq!(last_in_order(&vec!["x".to_string()]), Some(0));
    assert_eq!(last_in_order(&Vec::new()), None);
}

#[test]
fn folder_stamps_are_read_as_dates() {
    let t = StampTime { year: 2026, month: 8, day: 5, hour: 22, minute: 19 };
    assert_eq!(folder_stamp_time("20260805_2219_MCTTR0102b_t1"), Some(t));
    assert_eq!(folder_stamp_time("20260805_2219"), Some(t));
    assert_eq!(folder_stamp_time("run_20260805_2219"), None);
    assert_eq!(folder_stamp_time("20261305_2219"), None);
    let ts = parse_folder_timestamp("20260805_2219_MCTTR0102b_t1").unwrap();
    assert_eq!(Some(ts), parse_folder_timestamp("20260805_2219"));
    assert!((ts - 1_785_968_340).abs() < 86_400);
    assert_eq!(parse_folder_timestamp("run_20260805_2219"), None);
    assert_eq!(parse_folder_timestamp("20261305_2219"), None);
}
