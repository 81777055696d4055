use mv_toolkit::key::Key;
use mv_toolkit::paths::{file_stem_of, join_path};
use mv_toolkit::text::hex_string;
use mv_toolkit::motion_vector::parse_flags;
use mv_toolkit::publish::{mime_for, urlencoded};

#[test]
fn key_display_lists_every_field() {
    let k = Key { frame: 3, src_x: -1, src_y: 2, dst_x: 10, dst_y: -20, source: -1 };
    assert_eq!(k.display(), "Frame 3 src=(-1,2) dst=(10,-20) source=-1");
}

#[test]
fn key_display_extreme_values() {
    let k = Key { frame: i32::MIN, src_x: i64::MAX, src_y: 0, dst_x: i64::MIN, dst_y: 7, source: 1 };
    assert_eq!(
        k.display(),
        "Frame -2147483648 src=(9223372036854775807,0) dst=(-9223372036854775808,7) source=1"
    );
}

#[test]
fn hex_string_is_lower_case_without_prefix() {
    assert_eq!(hex_string(0), "0");
    assert_eq!(hex_string(255), "ff");
    assert_eq!(hex_string(0x1a2b), "1a2b");
    assert_eq!(hex_string(u64::MAX), "ffffffffffffffff");
}

#[test]
fn join_path_follows_path_join() {
    assert_eq!(join_path("a", "b"), "a/b");
    assert_eq!(join_path("a/", "b"), "a/b");
    assert_eq!(join_path("", "b"), "b");
    assert_eq!(join_path("a", "/b"), "/b");
    assert_eq!(join_path("a", ""), "a/");
}

#[test]
fn file_stem_follows_path_file_stem() {
    assert_eq!(file_stem_of("videos/vid_h264.mp4"), Some("vid_h264".to_string()));
    assert_eq!(file_stem_of(".bashrc"), Some(".bashrc".to_string()));
    assert_eq!(file_stem_of("archive.tar.gz"), Some("archive.tar".to_string()));
    assert_eq!(file_stem_of("a/b/"), Some("b".to_string()));
    assert_eq!(file_stem_of("a/./c."), Some("c".to_string()));
    assert_eq!(file_stem_of("a/.."), None);
    assert_eq!(file_stem_of(""), None);
    assert_eq!(file_stem_of("/"), None);
}

#[test]
fn parse_flags_reads_hex_and_decimal() {
    assert_eq!(parse_flags("0x1f"), Some(31));
    assert_eq!(parse_flags(" 0X10 "), Some(16));
    assert_eq!(parse_flags("42"), Some(42));
    assert_eq!(parse_flags("+7"), Some(7));
    assert_eq!(parse_flags("0xffffffffffffffff"), Some(u64::MAX));
}

#[test]
fn parse_flags_rejects_malformed_values() {
    assert_eq!(parse_flags("0x"), None);
    assert_eq!(parse_flags("abc"), None);
    assert_eq!(parse_flags("-1"), None);
    assert_eq!(parse_flags("18446744073709551616"), None);
    assert_eq!(parse_flags("0x1_0"), None);
    assert_eq!(parse_flags(""), None);
}

#[test]
fn flags_written_in_hex_read_back() {
    for f in [0u64, 1, 0x10, 0xdead_beef, u64::MAX] {
        let text = format!("0x{}", hex_string(f));
        assert_eq!(parse_flags(&text), Some(f));
    }
}

#[test]
fn urlencoded_escapes_space_colon_slash() {
    assert_eq!(urlencoded("a b:c/d"), "a%20b%3Ac%2Fd");
    assert_eq!(urlencoded("Automated Report: 2024-01-31 09:15:00"), "Automated%20Report%3A%202024-01-31%2009%3A15%3A00");
    assert_eq!(urlencoded(""), "");
    assert_eq!(urlencoded("%"), "%");
}

#[test]
fn mime_for_uses_the_extension() {
    assert_eq!(mime_for("plots/fastest.PNG"), "image/png");
    assert_eq!(mime_for("a.jpeg"), "image/jpeg");
    assert_eq!(mime_for("a.JPG"), "image/jpeg");
    assert_eq!(mime_for("a.gif"), "image/gif");
    assert_eq!(mime_for("a.svg"), "image/svg+xml");
    assert_eq!(mime_for("a.webp"), "image/webp");
    assert_eq!(mime_for("call_tree.html"), "text/html");
    assert_eq!(mime_for("x.htm"), "text/html");
    assert_eq!(mime_for("mv_comparison_result.txt"), "text/plain");
    assert_eq!(mime_for("d.json"), "application/json");
    assert_eq!(mime_for("d.pdf"), "application/pdf");
}

#[test]
fn mime_for_falls_back_to_octet_stream() {
    assert_eq!(mime_for("README"), "application/octet-stream");
    assert_eq!(mime_for(".png"), "application/octet-stream");
    assert_eq!(mime_for("a.tar.gz"), "application/octet-stream");
    assert_eq!(mime_for("dir/.."), "application/octet-stream");
    assert_eq!(mime_for(""), "application/octet-stream");
}
