use mv_toolkit::report_pages::{
    call_tree_page, dashboard_body, dashboard_body_with, dashboard_files, detailed_report_body, detailed_report_body_with,
    detailed_report_files, run_prefix_text, DashboardRun, PageError, TemplateFailure,
};
use mv_toolkit::topdown::read_topdown;

fn pair(a: &str, b: &str) -> (String, String) {
    (a.to_string(), b.to_string())
}

#[test]
fn detailed_report_carries_plots_profiler_and_comparison() {
    let files = detailed_report_files("res/run1");
    assert_eq!(files.len(), 13 + 1 + 1 + 2);
    assert_eq!(files[0], pair("res/run1/plots/fastest_methods.png", "fastest_methods.png"));
    assert_eq!(files[12], pair("res/run1/plots/grouped_barchart_memory.png", "grouped_barchart_memory.png"));
    assert_eq!(files[13], pair("res/run1/vtune_results/vtune_hotspots.png", "vtune_hotspots.png"));
    assert_eq!(files[14], pair("res/run1/mv_comparison_result.txt", "mv_comparison_result.txt"));
    assert_eq!(files[16], pair("res/run1/vtune_results/call_tree.html", "call_tree.html"));
}

#[test]
fn dashboard_files_are_prefixed_by_run() {
    assert_eq!(run_prefix_text(12), "run12_");
    let files = dashboard_files(&vec!["a".to_string(), "b/".to_string()]);
    assert_eq!(files.len(), 20);
    assert_eq!(files[0], pair("a/plots/detail_table_1streams_highlighted.png", "run0_detail_table_1streams_highlighted.png"));
    assert_eq!(files[7], pair("a/mv_comparison_result.txt", "run0_mv_comparison_result.txt"));
    assert_eq!(files[10], pair("b//plots/detail_table_1streams_highlighted.png", "run1_detail_table_1streams_highlighted.png"));
    assert_eq!(files[19], pair("b//vtune_results/call_tree.html", "run1_call_tree.html"));
}

#[test]
fn call_tree_page_renders_counts_and_tree() {
    let report = "Function Stack\tCPU Time:Total\tCPU Time:Self\nmain\t1\t2\n sub\t3\t4\nother\t5\t6\n";
    let rows = read_topdown(report, true).unwrap();
    let labels: Vec<(String, String)> = rows.iter().map(|_| ("x".to_string(), "y".to_string())).collect();
    let page = call_tree_page("{{ nodes_count }}/{{ roots_count }}|{{ nodes_count + 1 }}", &rows, &labels).unwrap();
    assert_eq!(page, "3/2|4");
    let page = call_tree_page("{{ tree_html|length > 100 }}", &rows, &labels).unwrap();
    assert_eq!(page, "True");
    assert!(matches!(call_tree_page("{% for %}", &rows, &labels), Err(TemplateFailure::Parse(_))));
}

const REPORT_TEMPLATE: &str = "{{ macro_id }}|{% for t in detail_tables %}{{ t.streams }}={{ t.filename }};{% endfor %}|{{ plots_images|length }}|{{ plots_images[1].title }}:{{ plots_images[1].filename }}|{{ vtune_images[0].title }}|{{ mv_comparison }}|{{ git_commit_url }}|{% if calltree is none %}no tree{% endif %}";

#[test]
fn detailed_report_body_lists_images_and_tables() {
    let tables = vec![(1, "detail_table_1streams.png".to_string()), (10, "detail_table_10streams.png".to_string())];
    let body = detailed_report_body_with(
        REPORT_TEMPLATE,
        Some("all equal".to_string()),
        Some("https://x/commit/abc".to_string()),
        None,
        &tables,
        "id-1",
    )
    .unwrap();
    assert_eq!(
        body,
        "id-1|1=detail_table_1streams.png;10=detail_table_10streams.png;|13|Throughput Scaling:scaling_fps.png|Profiler Results|all equal|https://x/commit/abc|no tree"
    );
    assert!(matches!(
        detailed_report_body_with("{{ 1 + }}", None, None, None, &tables, "id"),
        Err(TemplateFailure::Parse(_))
    ));
    assert!(matches!(
        detailed_report_body_with("{{ plots_images.nope.deeper }}", None, None, None, &tables, "id"),
        Err(TemplateFailure::Render(_))
    ));
}

#[test]
fn detailed_report_body_orders_tables_found_among_names() {
    let names: Vec<String> =
        ["detail_table_10streams.png", "detail_table_2streams.png", "notes.txt"].iter().map(|s| s.to_string()).collect();
    let body = detailed_report_body("{% for t in detail_tables %}{{ t.streams }},{% endfor %}{{ macro_id|length }}", None, None, None, &names)
        .unwrap();
    assert_eq!(body, "2,10,36");
}

fn run(title: &str, dir: &str, commit: Option<&str>) -> DashboardRun {
    DashboardRun {
        title: title.to_string(),
        results_dir: dir.to_string(),
        git_commit: commit.map(|c| c.to_string()),
        mv_comparison: Some(format!("{} comparison", title)),
        calltree: None,
    }
}

const DASHBOARD_TEMPLATE: &str = "{% for r in runs %}{{ r.title }}/{{ r.report_title }}/{{ r.detail_table }}/{{ r.memory_chart }}/{{ r.git_commit }}/{{ r.mv_comparison }}/{{ r.macro_id }};{% endfor %}";

#[test]
fn dashboard_body_has_a_record_per_run() {
    let runs = vec![run("First run", "res/initial_20240131_0915/", Some("c1")), run("Latest run", "", None)];
    let ids = vec!["i0".to_string(), "i1".to_string()];
    let body = dashboard_body_with(DASHBOARD_TEMPLATE, &runs, &ids).unwrap();
    assert_eq!(
        body,
        "First run/Automated Report: 2024-01-31 09:15:00/run0_detail_table_1streams_highlighted.png/run0_grouped_barchart_memory.png/c1/First run comparison/i0;Latest run/None/run1_detail_table_1streams_highlighted.png/run1_grouped_barchart_memory.png/None/Latest run comparison/i1;"
    );
    let body = dashboard_body("{% for r in runs %}{{ r.macro_id|length }}{% endfor %}", &runs).ok().unwrap();
    assert_eq!(body, "3636");
}

#[test]
fn dashboard_body_refuses_an_uncuttable_title() {
    let runs = vec![run("First run", "x/\u{966}\u{967}\u{968}\u{969}\u{96a}\u{96b}\u{96c}\u{96d}_0915", None)];
    assert!(matches!(dashboard_body_with(DASHBOARD_TEMPLATE, &runs, &vec!["i".to_string()]), Err(PageError::Title)));
}
