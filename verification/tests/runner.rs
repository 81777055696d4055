use mv_toolkit::runner::{list0_only, method_choice, parse_env_listing, sets_vtune_dir, with_library_path, BenchmarkRunner};

fn runner(video: &str, build: &str, kf: bool, csv: bool) -> BenchmarkRunner {
    BenchmarkRunner::new(video, "h264_cabac", build, 15, 3, 4, kf, csv, 6, "/home/u/mv", "20240131_0915")
}

#[test]
fn runner_paths_follow_the_run() {
    let r = runner("videos/vid_h264.mp4", "cust", true, true);
    assert_eq!(r.video_file, "videos/vid_h264.mp4");
    assert_eq!(r.streams, 15);
    assert_eq!(r.n_runs, 3);
    assert_eq!(r.thread_count, 4);
    assert_eq!(r.profiler_extractor, 6);
    assert_eq!(r.results_dir, "/home/u/mv/results/h264_cabac/20240131_0915_vid_h264_t4_kf_csv");
    assert_eq!(r.pkg_config_path, "/home/u/mv/ffmpeg/FFmpeg-8.0/lib/pkgconfig");
    assert_eq!(r.extractor_executables, "/home/u/mv/executables");
    assert_eq!(
        r.motion_vectors_comparison_file,
        "/home/u/mv/results/h264_cabac/20240131_0915_vid_h264_t4_kf_csv/mv_comparison_result.txt"
    );
    assert_eq!(r.slides_config, "/home/u/mv/scripts/slides_config.json");
    assert_eq!(r.plots_dir, "/home/u/mv/results/h264_cabac/20240131_0915_vid_h264_t4_kf_csv/plots");
    assert_eq!(r.venv_dir, "/home/u/mv/../venv-motion-vectors");
    assert_eq!(r.vtune_dir, "/home/u/mv/results/h264_cabac/20240131_0915_vid_h264_t4_kf_csv/vtune_results");
    assert_eq!(
        r.vtune_topdown_file,
        "/home/u/mv/results/h264_cabac/20240131_0915_vid_h264_t4_kf_csv/vtune_results/topdown.csv"
    );
}

#[test]
fn runner_folder_without_options_and_without_stem() {
    let r = runner("", "sys", false, false);
    assert_eq!(r.results_dir, "/home/u/mv/results/h264_cabac/20240131_0915_video_t4");
}

#[test]
fn build_commands_pick_the_target() {
    assert_eq!(runner("v.mp4", "sys", false, false).build_commands(), ("make build_sys".to_string(), "make build_tools".to_string()));
    assert_eq!(runner("v.mp4", "cust", false, false).build_commands().0, "make build");
}

#[test]
fn comparison_csv_names_the_first_stream() {
    let r = runner("v.mp4", "cust", false, false);
    assert_eq!(r.comparison_csv(4), "/home/u/mv/results/h264_cabac/20240131_0915_v_t4/method4_output_0.csv");
}

#[test]
fn profiler_plan_commands() {
    let r = runner("v.mp4", "cust", false, false);
    let p = r.profiler_plan();
    let res = "/home/u/mv/results/h264_cabac/20240131_0915_v_t4";
    assert_eq!(p.ffmpeg_lib, "/home/u/mv/ffmpeg/ffmpeg-8.0-custom/lib");
    assert_eq!(
        p.collect,
        format!(
            "vtune -collect hotspots -knob sampling-mode=sw -result-dir {res}/vtune_results -- \
             /home/u/mv/executables/extractor4 v.mp4 1 {res}/method4_output_vtune.csv 1 1"
        )
    );
    assert_eq!(
        p.report_hotspots,
        format!("vtune -report hotspots -result-dir {res}/vtune_results -format csv -report-output {res}/vtune_results/hotspots.csv")
    );
    assert_eq!(
        p.report_topdown,
        format!("vtune -report top-down -result-dir {res}/vtune_results -format csv -report-output {res}/vtune_results/topdown.csv")
    );
}

#[test]
fn flamegraph_plan_command() {
    let r = runner("v.mp4", "cust", true, false);
    let p = r.flamegraph_plan("perf", "/usr/lib");
    let res = "/home/u/mv/results/h264_cabac/20240131_0915_v_t4_kf";
    assert_eq!(p.extractor_name, "extractor6");
    assert_eq!(p.flamegraph_dir, format!("{res}/flamegraph"));
    assert_eq!(p.output_html, format!("{res}/flamegraph/extractor6_flamegraph.html"));
    assert_eq!(p.perf_data, format!("{res}/flamegraph/perf.data"));
    assert_eq!(p.title, "extractor6 Flamegraph (perf)");
    assert_eq!(
        p.command,
        format!(
            "LD_LIBRARY_PATH=/home/u/mv/ffmpeg/FFmpeg-8.0-custom/lib:/usr/lib perf record -g --call-graph dwarf -F 99 \
             -o {res}/flamegraph/perf.data -- /home/u/mv/executables/extractor6 v.mp4 0 \
             {res}/method6_output_flamegraph.csv 1 4 1"
        )
    );
    let q = BenchmarkRunner::new("v.mp4", "t", "b", 1, 1, 0, false, false, 2, "/c", "ts").flamegraph_plan("/bin/perf", "");
    assert!(q.command.starts_with("LD_LIBRARY_PATH=/c/ffmpeg/FFmpeg-8.0/lib: /bin/perf record"));
    assert!(q.command.ends_with(" 1 0 0"));
}

fn env(v: &[(&str, &str)]) -> Vec<(String, String)> {
    v.iter().map(|(k, x)| (k.to_string(), x.to_string())).collect()
}

#[test]
fn library_path_is_prepended_or_added() {
    let e = env(&[("A", "1"), ("LD_LIBRARY_PATH", "/old"), ("LD_LIBRARY_PATH", "/other")]);
    assert_eq!(
        with_library_path(&e, "/lib"),
        env(&[("A", "1"), ("LD_LIBRARY_PATH", "/lib/libavutil:/lib/libavformat:/old"), ("LD_LIBRARY_PATH", "/other")])
    );
    assert_eq!(
        with_library_path(&env(&[("A", "1")]), "/lib"),
        env(&[("A", "1"), ("LD_LIBRARY_PATH", "/lib/libavutil:/lib/libavformat:")])
    );
}

#[test]
fn environment_listing_is_split_at_the_first_equals() {
    let e = parse_env_listing("A=1\nnoequals\nB=x=y\n=v\r\nVTUNE_PROFILER_DIR=/opt/vtune");
    assert_eq!(e, env(&[("A", "1"), ("B", "x=y"), ("", "v"), ("VTUNE_PROFILER_DIR", "/opt/vtune")]));
    assert!(sets_vtune_dir(&e));
    assert!(!sets_vtune_dir(&env(&[("A", "1")])));
}

#[test]
fn comparison_settings_from_variables() {
    assert_eq!(method_choice(Some("3"), 1), 3);
    assert_eq!(method_choice(Some("x"), 1), 1);
    assert_eq!(method_choice(Some("4294967296"), 4), 4);
    assert_eq!(method_choice(None, 4), 4);
    assert!(list0_only(None));
    assert!(!list0_only(Some("0")));
    assert!(list0_only(Some("1")));
    assert!(list0_only(Some("00")));
}
