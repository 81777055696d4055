use mv_toolkit::averaging::averaging_plan;
use mv_toolkit::benchmark::{
    extractor_argv, frames_per_stream, generate_stream_runs, methods, parse_child_report, slides_command,
    stream_count_allowed, stream_csv_path, stream_totals, MAX_STREAMS,
};
use mv_toolkit::report_table::parse_output_table;
use mv_toolkit::speedup::speedup_pairs;

#[test]
fn stream_runs_of_a_sweep() {
    assert_eq!(generate_stream_runs(12), vec![1, 3, 5, 10]);
    assert_eq!(generate_stream_runs(15), vec![1, 3, 5, 10, 15]);
    assert_eq!(generate_stream_runs(5), vec![1, 3, 5]);
    assert_eq!(generate_stream_runs(4), vec![1, 3]);
    assert_eq!(generate_stream_runs(1), vec![1]);
    assert_eq!(generate_stream_runs(0), Vec::<i32>::new());
    assert_eq!(generate_stream_runs(-3), Vec::<i32>::new());
}

#[test]
fn stream_runs_are_increasing_multiples() {
    let runs = generate_stream_runs(100);
    assert_eq!(runs.len(), 3 + 19);
    for w in runs.windows(2) {
        assert!(w[0] < w[1]);
    }
    for x in 1..=100 {
        let expected = x == 1 || x == 3 || x == 5 || (x >= 10 && x % 5 == 0);
        assert_eq!(runs.contains(&x), expected);
    }
}

#[test]
fn method_table_and_paths() {
    let ms = methods();
    assert_eq!(ms.len(), 8);
    assert_eq!(ms[0].name, "Original FFmpeg MV only");
    assert_eq!(ms[6].name, "Custom FFmpeg");
    assert_eq!(ms[6].exe_path("/p"), "/p/executables/extractor6");
    assert_eq!(ms[6].output_csv_prefix(), "method6_output");
    assert_eq!(stream_csv_path("out", "method1_output", 3), "out/method1_output_3.csv");
}

#[test]
fn extractor_argv_of_first_and_later_streams() {
    let ms = methods();
    let first = extractor_argv(&ms[2], "v.mp4", 0, true, "/res", "/proj", true, false);
    assert_eq!(first, vec!["/proj/executables/extractor2", "v.mp4", "1", "/res/method2_output_0.csv", "1", "0"]);
    let later = extractor_argv(&ms[2], "v.mp4", 4, false, "/res", "/proj", true, true);
    assert_eq!(later, vec!["/proj/executables/extractor2", "v.mp4", "0", "/res/method2_output_4.csv", "0", "1"]);
}

#[test]
fn child_report_parsing() {
    assert_eq!(parse_child_report("120 4500 2048\n"), Some((120, 4500, Some(2048))));
    assert_eq!(parse_child_report("  120\t4500 "), Some((120, 4500, None)));
    assert_eq!(parse_child_report("5 6 zz"), Some((5, 6, None)));
    assert_eq!(parse_child_report("x 1"), None);
    assert_eq!(parse_child_report("5 abc"), None);
    assert_eq!(parse_child_report("5"), None);
    assert_eq!(parse_child_report("2147483648 1"), None);
}

#[test]
fn slides_command_builds_the_python_call() {
    let c = slides_command("C:\\proj", "C:\\proj\\plots", "cfg\\slides.json", "h264", true, 0);
    assert_eq!(c.csv_path, "C:\\proj\\plots/benchmark_results.csv");
    assert_eq!(c.python, "C:\\proj/../venv-motion-vectors/bin/python3");
    assert_eq!(
        c.code,
        "import sys; sys.path.insert(0, 'C:/proj/scripts'); import pandas as pd; import slides as s; \
         df = pd.read_csv('C:/proj/plots/benchmark_results.csv'); \
         s.produce_slides(df, 'cfg/slides.json', 'benchmark_comparison_slides.pptx', 'C:/proj/plots', 'h264', \
         'Keyframes only: yes | Threads: auto')"
    );
    let d = slides_command("/p", "/p/plots", "/p/c.json", "vp9", false, 8);
    assert!(d.code.ends_with("'vp9', 'Keyframes only: no | Threads: 8')"));
}

fn rows(v: &[(&str, i32)]) -> Vec<(String, i32)> {
    v.iter().map(|(m, s)| (m.to_string(), *s)).collect()
}

#[test]
fn averaging_groups_follow_the_first_run() {
    let runs = vec![
        rows(&[("B", 3), ("A", 3), ("B", 3)]),
        rows(&[("A", 3), ("C", 3), ("B", 5)]),
    ];
    let plan = averaging_plan(&runs, 3);
    assert_eq!(
        plan,
        vec![
            ("B".to_string(), vec![(0, 0), (0, 2)]),
            ("A".to_string(), vec![(0, 1), (1, 0)]),
        ]
    );
    assert_eq!(averaging_plan(&runs, 5), vec![("B".to_string(), vec![(1, 2)])]);
    assert!(averaging_plan(&Vec::new(), 3).is_empty());
}

#[test]
fn results_table_rows_are_read() {
    let text = "noise | 1 | 2 | 3 | 4 | 5 | 6 | 7 | 8\n\
        Method | ms/frame(strm) | Total FPS | CPU ms/frame | CPU %/stream | CPU % total | Mem Total KB | Mem/Strm KB | Frames\n\
        ----------\n\
        Custom FFmpeg | 1.25 ms | 800.0 | 0.500 ms | 50.0 % | 10.0 % | 2048 | 1024 | 300\n\
        \n\
        bad row | 1 | 2\n\
        Other | x | 1 | 2 ms | 3 | 4 | 5 | 6 | notanumber\n\
        Original FFmpeg MV only | 2.50 ms | 400.0 | 1.000 ms | 50.0 % | 10.0 % | 4096 | 2048 | 299\n\
        ms/frame(strm)  = wall time | a | b | c | d | e | f | g | 1\n\
        Total FPS | a | b | c | d | e | f | g | 1\n";
    let t = parse_output_table(text);
    assert_eq!(t.len(), 2);
    assert_eq!(t[0].method, "Custom FFmpeg");
    assert_eq!(t[0].time_per_frame, "1.25");
    assert_eq!(t[0].fps, "800.0");
    assert_eq!(t[0].cpu_ms_per_frame, "0.500");
    assert_eq!(t[0].memory, "2048");
    assert_eq!(t[0].mem_per_stream, "1024");
    assert_eq!(t[0].frames, 300);
    assert_eq!(t[1].method, "Original FFmpeg MV only");
    assert_eq!(t[1].frames, 299);
    assert!(parse_output_table("no table here").is_empty());
}

#[test]
fn speedup_pairs_match_stream_counts() {
    let r = rows(&[
        ("Custom FFmpeg", 5),
        ("Original FFmpeg MV only", 5),
        ("Original FFmpeg MV only", 1),
        ("Other", 1),
        ("Original FFmpeg MV only", 3),
        ("Custom FFmpeg", 1),
        ("Original FFmpeg MV only", 1),
    ]);
    let p = speedup_pairs(&r);
    assert_eq!(p.original_rows, 4);
    assert_eq!(p.custom_rows, 2);
    assert_eq!(p.pairs, vec![(1, 2, 5), (5, 1, 0)]);
    let none = speedup_pairs(&rows(&[("Custom FFmpeg", 1)]));
    assert_eq!(none.original_rows, 0);
    assert!(none.pairs.is_empty());
}

#[test]
fn totals_prefer_the_reported_memory() {
    let children = vec![
        (Some((100, 5000i64, Some(2048i64))), 9000i64),
        (Some((98, 4900, Some(0))), 3000),
        (Some((97, 4800, None)), 1500),
        (None, 7000),
    ];
    let t = stream_totals(&children);
    assert_eq!(t.frames, 295);
    assert_eq!(t.motion_vectors, 14700);
    assert_eq!(t.memory_total_kb, 2048 + 3000 + 1500 + 7000);
    assert_eq!(t.memory_peak_kb, 7000);
    let none = stream_totals(&Vec::new());
    assert_eq!((none.frames, none.motion_vectors, none.memory_total_kb, none.memory_peak_kb), (0, 0, 0, 0));
}

#[test]
fn frames_per_stream_divides_whole_frames() {
    assert_eq!(frames_per_stream(295, 3), 98);
    assert_eq!(frames_per_stream(0, 3), 0);
    assert_eq!(frames_per_stream(10, 0), 0);
    assert_eq!(frames_per_stream(-4, 2), 0);
}

#[test]
fn stream_counts_a_run_may_start() {
    assert!(stream_count_allowed(1));
    assert!(stream_count_allowed(MAX_STREAMS));
    assert!(!stream_count_allowed(0));
    assert!(!stream_count_allowed(101));
    assert!(!stream_count_allowed(-5));
}
