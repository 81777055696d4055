//! Confluence report pages of benchmark runs: which result files a page
//! carries and the page bodies, rendered from the project's templates with
//! minijinja.

use vstd::prelude::*;
use minijinja::{Environment, Value};
use vstd::string::*;
use crate::text::{chars_of, decimal_text, int_text, string_from_chars};
use crate::scan::{strip_suffixes, trim_end_matches};
use crate::paths::file_name_of;
use crate::report_names::{
    detail_tables, dir_name, generate_report_title, names_view, regex_captures_of, searched_entry, searched_names,
    stamp_pattern, text_of, title_for,
};
use crate::keyed::{is_stable_key_order, labeled_views};
use crate::topdown::{build_call_tree, call_tree_html, is_call_tree, levels, tree_html, tree_text, CallTree, TopdownRow};

verus! {

/// A result file a report page carries: its title on the page, if any, its
/// file name and the subdirectory of the results directory it lies in
/// (empty for the directory itself).
pub struct FileSpec {
    pub title: Option<String>,
    pub filename: String,
    pub subdir: String,
}

pub open spec fn file_spec_view(f: FileSpec) -> (Option<Seq<char>>, Seq<char>, Seq<char>) {
    (text_of(f.title), f.filename@, f.subdir@)
}

pub open spec fn specs_view(v: Seq<FileSpec>) -> Seq<(Option<Seq<char>>, Seq<char>, Seq<char>)> {
    v.map_values(|f: FileSpec| file_spec_view(f))
}

fn file_spec(title: Option<&str>, filename: &str, subdir: &str) -> (f: FileSpec)
    ensures
        file_spec_view(f) == (match title {
            Some(t) => Some(t@),
            None => None::<Seq<char>>,
        }, filename@, subdir@),
{
    FileSpec {
        title: match title {
            Some(t) => Some(t.to_owned()),
            None => None,
        },
        filename: filename.to_owned(),
        subdir: subdir.to_owned(),
    }
}


/// The plots of a run's detailed report, with their titles.
pub open spec fn detailed_report_plot_specs() -> Seq<(Option<Seq<char>>, Seq<char>, Seq<char>)> {
    seq![
        (Some("Fastest Methods"@), "fastest_methods.png"@, "plots"@),
        (Some("Throughput Scaling"@), "scaling_fps.png"@, "plots"@),
        (Some("Latency Scaling"@), "scaling_timeperframe.png"@, "plots"@),
        (Some("CPU Usage Scaling"@), "scaling_cpu.png"@, "plots"@),
        (Some("Memory Usage Scaling"@), "scaling_memory.png"@, "plots"@),
        (Some("Speedup Heatmap"@), "speedup_heatmap.png"@, "plots"@),
        (Some("Speedup CPU"@), "speedup_cpu.png"@, "plots"@),
        (Some("Speedup Throughput"@), "speedup_fps.png"@, "plots"@),
        (Some("Speedup Memory"@), "speedup_memory.png"@, "plots"@),
        (Some("Grouped FPS Comparison (All Streams)"@), "grouped_barchart_fps.png"@, "plots"@),
        (Some("Grouped Latency Comparison (All Streams)"@), "grouped_barchart_timeperframe.png"@, "plots"@),
        (Some("Grouped CPU Usage Comparison (All Streams)"@), "grouped_barchart_cpu.png"@, "plots"@),
        (Some("Grouped Memory Usage Comparison (All Streams)"@), "grouped_barchart_memory.png"@, "plots"@),
    ]
}

/// The profiler chart of a run's detailed report.
pub open spec fn detailed_report_vtune_specs() -> Seq<(Option<Seq<char>>, Seq<char>, Seq<char>)> {
    seq![(Some("Profiler Results"@), "vtune_hotspots.png"@, "vtune_results"@)]
}

/// The motion-vector comparison of a run.
pub open spec fn additional_file_specs() -> Seq<(Option<Seq<char>>, Seq<char>, Seq<char>)> {
    seq![(None, "mv_comparison_result.txt"@, ""@)]
}

/// The profiler outputs of a run.
pub open spec fn vtune_file_specs() -> Seq<(Option<Seq<char>>, Seq<char>, Seq<char>)> {
    seq![(None, "vtune_hotspots.png"@, "vtune_results"@), (None, "call_tree.html"@, "vtune_results"@)]
}

/// The plots of a run on the main dashboard.
pub open spec fn dashboard_plot_specs() -> Seq<(Option<Seq<char>>, Seq<char>, Seq<char>)> {
    seq![
        (None, "detail_table_1streams_highlighted.png"@, "plots"@),
        (None, "speedup_heatmap.png"@, "plots"@),
        (None, "speedup_cpu.png"@, "plots"@),
        (None, "speedup_memory.png"@, "plots"@),
        (None, "grouped_barchart_cpu.png"@, "plots"@),
        (None, "grouped_barchart_memory.png"@, "plots"@),
    ]
}

pub fn detailed_report_plots() -> (res: Vec<FileSpec>)
    ensures
        specs_view(res@) == detailed_report_plot_specs(),
{
    let mut v: Vec<FileSpec> = Vec::new();
    v.push(file_spec(Some("Fastest Methods"), "fastest_methods.png", "plots"));
    v.push(file_spec(Some("Throughput Scaling"), "scaling_fps.png", "plots"));
    v.push(file_spec(Some("Latency Scaling"), "scaling_timeperframe.png", "plots"));
    v.push(file_spec(Some("CPU Usage Scaling"), "scaling_cpu.png", "plots"));
    v.push(file_spec(Some("Memory Usage Scaling"), "scaling_memory.png", "plots"));
    v.push(file_spec(Some("Speedup Heatmap"), "speedup_heatmap.png", "plots"));
    v.push(file_spec(Some("Speedup CPU"), "speedup_cpu.png", "plots"));
    v.push(file_spec(Some("Speedup Throughput"), "speedup_fps.png", "plots"));
    v.push(file_spec(Some("Speedup Memory"), "speedup_memory.png", "plots"));
    v.push(file_spec(Some("Grouped FPS Comparison (All Streams)"), "grouped_barchart_fps.png", "plots"));
    v.push(file_spec(Some("Grouped Latency Comparison (All Streams)"), "grouped_barchart_timeperframe.png", "plots"));
    v.push(file_spec(Some("Grouped CPU Usage Comparison (All Streams)"), "grouped_barchart_cpu.png", "plots"));
    v.push(file_spec(Some("Grouped Memory Usage Comparison (All Streams)"), "grouped_barchart_memory.png", "plots"));
    assert(specs_view(v@) =~= detailed_report_plot_specs());
    v
}

pub fn detailed_report_vtune() -> (res: Vec<FileSpec>)
    ensures
        specs_view(res@) == detailed_report_vtune_specs(),
{
    let v = vec![file_spec(Some("Profiler Results"), "vtune_hotspots.png", "vtune_results")];
    assert(specs_view(v@) =~= detailed_report_vtune_specs());
    v
}

pub fn additional_files() -> (res: Vec<FileSpec>)
    ensures
        specs_view(res@) == additional_file_specs(),
{
    let v = vec![file_spec(None, "mv_comparison_result.txt", "")];
    assert(specs_view(v@) =~= additional_file_specs());
    v
}

pub fn vtune_files() -> (res: Vec<FileSpec>)
    ensures
        specs_view(res@) == vtune_file_specs(),
{
    let v = vec![
        file_spec(None, "vtune_hotspots.png", "vtune_results"),
        file_spec(None, "call_tree.html", "vtune_results"),
    ];
    assert(specs_view(v@) =~= vtune_file_specs());
    v
}

pub fn dashboard_plots() -> (res: Vec<FileSpec>)
    ensures
        specs_view(res@) == dashboard_plot_specs(),
{
    let mut v: Vec<FileSpec> = Vec::new();
    v.push(file_spec(None, "detail_table_1streams_highlighted.png", "plots"));
    v.push(file_spec(None, "speedup_heatmap.png", "plots"));
    v.push(file_spec(None, "speedup_cpu.png", "plots"));
    v.push(file_spec(None, "speedup_memory.png", "plots"));
    v.push(file_spec(None, "grouped_barchart_cpu.png", "plots"));
    v.push(file_spec(None, "grouped_barchart_memory.png", "plots"));
    assert(specs_view(v@) =~= dashboard_plot_specs());
    v
}


/// Where a result file lies: `<results_dir>/<file>` or
/// `<results_dir>/<subdir>/<file>`.
pub open spec fn spec_path(results_dir: Seq<char>, f: (Option<Seq<char>>, Seq<char>, Seq<char>)) -> Seq<char> {
    if f.2.len() == 0 {
        results_dir + "/"@ + f.1
    } else {
        results_dir + "/"@ + f.2 + "/"@ + f.1
    }
}

/// Each result file's location, and the name it is attached under: its
/// file name after `prefix`.
pub open spec fn file_entries(results_dir: Seq<char>, specs: Seq<(Option<Seq<char>>, Seq<char>, Seq<char>)>, prefix: Seq<char>) -> Seq<(Seq<char>, Seq<char>)> {
    specs.map_values(|f: (Option<Seq<char>>, Seq<char>, Seq<char>)| (spec_path(results_dir, f), prefix + f.1))
}

pub open spec fn pair_views(v: Seq<(String, String)>) -> Seq<(Seq<char>, Seq<char>)> {
    v.map_values(|p: (String, String)| (p.0@, p.1@))
}

/// Appends the location and attachment name of each result file; the page
/// carries those that exist.
pub fn push_file_candidates(out: &mut Vec<(String, String)>, results_dir: &str, specs: &Vec<FileSpec>, prefix: &str)
    ensures
        pair_views(final(out)@) == pair_views(old(out)@) + file_entries(results_dir@, specs_view(specs@), prefix@),
{
    let ghost start = pair_views(out@);
    let mut i: usize = 0;
    while i < specs.len()
        invariant
            i <= specs@.len(),
            pair_views(out@) == start + file_entries(results_dir@, specs_view(specs@), prefix@).take(i as int),
        decreases specs@.len() - i,
    {
        let f = &specs[i];
        let mut path = results_dir.to_owned();
        path.append("/");
        if f.subdir.as_str().unicode_len() > 0 {
            path.append(f.subdir.as_str());
            path.append("/");
        }
        path.append(f.filename.as_str());
        let mut name = prefix.to_owned();
        name.append(f.filename.as_str());
        let ghost fv = file_spec_view(*f);
        proof {
            assert(specs_view(specs@)[i as int] == fv);
            assert(path@ =~= spec_path(results_dir@, fv));
            assert(name@ =~= prefix@ + fv.1);
        }
        let ghost before = out@;
        out.push((path, name));
        proof {
            assert(pair_views(out@) =~= pair_views(before).push((path@, name@)));
            assert(file_entries(results_dir@, specs_view(specs@), prefix@).take(i + 1) =~= file_entries(
                results_dir@,
                specs_view(specs@),
                prefix@,
            ).take(i as int).push((spec_path(results_dir@, fv), prefix@ + fv.1)));
            assert(pair_views(out@) =~= start + file_entries(results_dir@, specs_view(specs@), prefix@).take(i + 1));
        }
        i += 1;
    }
    proof {
        assert(file_entries(results_dir@, specs_view(specs@), prefix@).take(i as int) =~= file_entries(
            results_dir@,
            specs_view(specs@),
            prefix@,
        ));
    }
}

/// The result files a run's detailed report page carries, where they
/// exist: its plots, its profiler chart, its motion-vector comparison and
/// its profiler outputs, in that order, each under its own name. (Its
/// detail-table images are added to these.)
pub open spec fn detailed_report_entries(results_dir: Seq<char>) -> Seq<(Seq<char>, Seq<char>)> {
    file_entries(results_dir, detailed_report_plot_specs(), ""@) + file_entries(results_dir, detailed_report_vtune_specs(), ""@)
        + file_entries(results_dir, additional_file_specs(), ""@) + file_entries(results_dir, vtune_file_specs(), ""@)
}

pub fn detailed_report_files(results_dir: &str) -> (res: Vec<(String, String)>)
    ensures
        pair_views(res@) == detailed_report_entries(results_dir@),
{
    let mut out: Vec<(String, String)> = Vec::new();
    proof {
        assert(pair_views(out@) =~= Seq::<(Seq<char>, Seq<char>)>::empty());
    }
    push_file_candidates(&mut out, results_dir, &detailed_report_plots(), "");
    push_file_candidates(&mut out, results_dir, &detailed_report_vtune(), "");
    push_file_candidates(&mut out, results_dir, &additional_files(), "");
    push_file_candidates(&mut out, results_dir, &vtune_files(), "");
    proof {
        assert(pair_views(out@) =~= detailed_report_entries(results_dir@));
    }
    out
}

/// The prefix of the names a run's files are attached to the dashboard
/// under: `run<index>_`.
pub open spec fn run_prefix(idx: int) -> Seq<char> {
    "run"@ + int_text(idx) + "_"@
}

pub fn run_prefix_text(idx: usize) -> (res: String)
    ensures
        res@ == run_prefix(idx as int),
{
    let mut p = "run".to_owned();
    p.append(decimal_text(idx as i128).as_str());
    p.append("_");
    p
}

/// The result files of one run on the main dashboard: its dashboard plots,
/// its profiler chart, its motion-vector comparison and its profiler
/// outputs, each attached under the run's prefix.
pub open spec fn dashboard_run_entries(results_dir: Seq<char>, idx: int) -> Seq<(Seq<char>, Seq<char>)> {
    file_entries(results_dir, dashboard_plot_specs(), run_prefix(idx)) + file_entries(results_dir, detailed_report_vtune_specs(), run_prefix(idx))
        + file_entries(results_dir, additional_file_specs(), run_prefix(idx)) + file_entries(results_dir, vtune_file_specs(), run_prefix(idx))
}

/// The result files of the dashboard's runs, run after run.
pub open spec fn dashboard_entries(dirs: Seq<Seq<char>>) -> Seq<(Seq<char>, Seq<char>)>
    decreases dirs.len(),
{
    if dirs.len() == 0 {
        Seq::empty()
    } else {
        dashboard_entries(dirs.drop_last()) + dashboard_run_entries(dirs.last(), dirs.len() - 1)
    }
}

pub open spec fn texts_view(v: Seq<String>) -> Seq<Seq<char>> {
    v.map_values(|s: String| s@)
}

/// The result files the main dashboard carries for its runs, where they
/// exist.
pub fn dashboard_files(results_dirs: &Vec<String>) -> (res: Vec<(String, String)>)
    ensures
        pair_views(res@) == dashboard_entries(texts_view(results_dirs@)),
{
    let mut out: Vec<(String, String)> = Vec::new();
    let mut i: usize = 0;
    proof {
        assert(pair_views(out@) =~= Seq::<(Seq<char>, Seq<char>)>::empty());
        assert(texts_view(results_dirs@).take(0) =~= Seq::<Seq<char>>::empty());
    }
    while i < results_dirs.len()
        invariant
            i <= results_dirs@.len(),
            pair_views(out@) == dashboard_entries(texts_view(results_dirs@).take(i as int)),
        decreases results_dirs@.len() - i,
    {
        let prefix = run_prefix_text(i);
        let dir = results_dirs[i].as_str();
        let ghost before = pair_views(out@);
        push_file_candidates(&mut out, dir, &dashboard_plots(), prefix.as_str());
        push_file_candidates(&mut out, dir, &detailed_report_vtune(), prefix.as_str());
        push_file_candidates(&mut out, dir, &additional_files(), prefix.as_str());
        push_file_candidates(&mut out, dir, &vtune_files(), prefix.as_str());
        proof {
            let ds = texts_view(results_dirs@);
            assert(ds.take(i + 1).drop_last() =~= ds.take(i as int));
            assert(ds.take(i + 1).last() == results_dirs@[i as int]@);
            assert(pair_views(out@) =~= before + dashboard_run_entries(results_dirs@[i as int]@, i as int));
        }
        i += 1;
    }
    proof {
        assert(texts_view(results_dirs@).take(i as int) =~= texts_view(results_dirs@));
    }
    out
}


/// An error of the template engine.
#[verifier::external_type_specification]
#[verifier::external_body]
pub struct ExTemplateError(minijinja::Error);

/// Which step of rendering a page failed, with the engine's error.
#[derive(Debug)]
pub enum TemplateFailure {
    /// The template does not parse.
    Parse(minijinja::Error),
    /// The template is not found after it was added.
    Lookup(minijinja::Error),
    /// Rendering the template failed.
    Render(minijinja::Error),
}

pub open spec fn fields_view(v: Seq<(String, Option<String>)>) -> Seq<(Seq<char>, Option<Seq<char>>)> {
    v.map_values(|p: (String, Option<String>)| (p.0@, text_of(p.1)))
}

pub open spec fn counts_view(v: Seq<(String, u64)>) -> Seq<(Seq<char>, u64)> {
    v.map_values(|p: (String, u64)| (p.0@, p.1))
}

pub open spec fn records_view(v: Seq<Vec<(String, Option<String>)>>) -> Seq<Seq<(Seq<char>, Option<Seq<char>>)>> {
    v.map_values(|r: Vec<(String, Option<String>)>| fields_view(r@))
}

pub open spec fn lists_view(v: Seq<(String, Vec<Vec<(String, Option<String>)>>)>) -> Seq<(Seq<char>, Seq<Seq<(Seq<char>, Option<Seq<char>>)>>)> {
    v.map_values(|l: (String, Vec<Vec<(String, Option<String>)>>)| (l.0@, records_view(l.1@)))
}

/// The page minijinja renders from the template `source` added under
/// `name`, in a context of the given text (or none) values, counts, and
/// lists of records of text (or none) values; `None` where it fails.
pub uninterp spec fn rendered_page(
    name: Seq<char>,
    source: Seq<char>,
    fields: Seq<(Seq<char>, Option<Seq<char>>)>,
    counts: Seq<(Seq<char>, u64)>,
    lists: Seq<(Seq<char>, Seq<Seq<(Seq<char>, Option<Seq<char>>)>>)>,
) -> Option<Seq<char>>;

/// Renders a template in a context of plain values.
///
/// Trusted: builds the context as a minijinja map from the values (a
/// missing text as none, a list of records as a sequence of maps), then
/// calls `minijinja::Environment::add_template`, `get_template` and
/// `Template::render`. Claimed: the outcome, the page or a failure, is the
/// same for the same template and values.
#[verifier::external_body]
fn render_template(
    name: &str,
    source: &str,
    fields: &Vec<(String, Option<String>)>,
    counts: &Vec<(String, u64)>,
    lists: &Vec<(String, Vec<Vec<(String, Option<String>)>>)>,
) -> (res: Result<String, TemplateFailure>)
    ensures
        page_outcome(res, rendered_page(name@, source@, fields_view(fields@), counts_view(counts@), lists_view(lists@))),
{
    let ctx: Value = fields.iter().map(|(k, v)| (k.as_str(), Value::from(v.clone())))
        .chain(counts.iter().map(|(k, n)| (k.as_str(), Value::from(*n))))
        .chain(lists.iter().map(|(k, rs)| (k.as_str(), rs.iter().map(|r| r.iter().cloned().collect::<Value>()).collect::<Value>())))
        .collect();
    let mut env = Environment::new();
    env.add_template(name, source).map_err(TemplateFailure::Parse)?;
    env.get_template(name).map_err(TemplateFailure::Lookup)?.render(ctx).map_err(TemplateFailure::Render)
}

/// A rendering's outcome is the expected page, or a failure where no page
/// is expected.
pub open spec fn page_outcome(res: Result<String, TemplateFailure>, expected: Option<Seq<char>>) -> bool {
    match res {
        Ok(s) => expected == Some(s@),
        Err(_) => expected is None,
    }
}

/// The call-tree page of a top-down report, from the `vtune` template: the
/// nested list of its call tree, with the given texts of each function's
/// CPU times, and the numbers of functions and of top-level functions.
pub fn call_tree_page(template: &str, rows: &Vec<TopdownRow>, labels: &Vec<(String, String)>) -> (res: Result<String, TemplateFailure>)
    requires
        labels@.len() == rows@.len(),
    ensures
        exists|t: CallTree| #![trigger is_call_tree(levels(rows@), t)]
            is_call_tree(levels(rows@), t) && page_outcome(
                res,
                rendered_page(
                    "vtune"@,
                    template@,
                    seq![("tree_html"@, Some(tree_html(tree_text(rows@, t, labels@), t.roots@)))],
                    seq![("nodes_count"@, rows@.len() as u64), ("roots_count"@, t.roots@.len() as u64)],
                    seq![],
                ),
            ),
{
    let tree = build_call_tree(rows);
    let html = call_tree_html(rows, &tree, labels);
    let fields = vec![("tree_html".to_owned(), Some(html))];
    let counts = vec![("nodes_count".to_owned(), rows.len() as u64), ("roots_count".to_owned(), tree.roots.len() as u64)];
    let lists: Vec<(String, Vec<Vec<(String, Option<String>)>>)> = Vec::new();
    let res = render_template("vtune", template, &fields, &counts, &lists);
    proof {
        assert(fields_view(fields@) =~= seq![("tree_html"@, Some(tree_html(tree_text(rows@, tree, labels@), tree.roots@)))]);
        assert(counts_view(counts@) =~= seq![("nodes_count"@, rows@.len() as u64), ("roots_count"@, tree.roots@.len() as u64)]);
        assert(lists_view(lists@) =~= Seq::<(Seq<char>, Seq<Seq<(Seq<char>, Option<Seq<char>>)>>)>::empty());
    }
    res
}


/// A fresh identifier for a Confluence macro on a page.
///
/// Trusted: the hyphenated text of `uuid::Uuid::new_v4`. Nothing is claimed
/// of it: it is random.
#[verifier::external_body]
fn new_macro_id() -> String {
    uuid::Uuid::new_v4().to_string()
}

/// The records of a report's images: each one's title (empty when it has
/// none) and file name.
pub open spec fn image_records(specs: Seq<(Option<Seq<char>>, Seq<char>, Seq<char>)>) -> Seq<Seq<(Seq<char>, Option<Seq<char>>)>> {
    specs.map_values(|f: (Option<Seq<char>>, Seq<char>, Seq<char>)| seq![
        ("title"@, Some(match f.0 {
            Some(t) => t,
            None => ""@,
        })),
        ("filename"@, Some(f.1)),
    ])
}

/// The records of a run's detail tables: each one's stream count, as
/// decimal text, and file name.
pub open spec fn table_records(tables: Seq<(i64, Seq<char>)>) -> Seq<Seq<(Seq<char>, Option<Seq<char>>)>> {
    tables.map_values(|e: (i64, Seq<char>)| seq![("streams"@, Some(int_text(e.0 as int))), ("filename"@, Some(e.1))])
}

pub open spec fn detailed_report_fields(
    mv_comparison: Option<Seq<char>>,
    git_commit_url: Option<Seq<char>>,
    calltree: Option<Seq<char>>,
    macro_id: Seq<char>,
) -> Seq<(Seq<char>, Option<Seq<char>>)> {
    seq![
        ("mv_comparison"@, mv_comparison),
        ("git_commit_url"@, git_commit_url),
        ("calltree"@, calltree),
        ("macro_id"@, Some(macro_id)),
    ]
}

pub open spec fn detailed_report_lists(tables: Seq<(i64, Seq<char>)>) -> Seq<(Seq<char>, Seq<Seq<(Seq<char>, Option<Seq<char>>)>>)> {
    seq![
        ("vtune_images"@, image_records(detailed_report_vtune_specs())),
        ("plots_images"@, image_records(detailed_report_plot_specs())),
        ("detail_tables"@, table_records(tables)),
    ]
}

fn image_list(specs: &Vec<FileSpec>) -> (res: Vec<Vec<(String, Option<String>)>>)
    ensures
        records_view(res@) == image_records(specs_view(specs@)),
{
    let mut out: Vec<Vec<(String, Option<String>)>> = Vec::new();
    let mut i: usize = 0;
    while i < specs.len()
        invariant
            i <= specs@.len(),
            records_view(out@) == image_records(specs_view(specs@)).take(i as int),
        decreases specs@.len() - i,
    {
        let f = &specs[i];
        let title = match &f.title {
            Some(t) => t.clone(),
            None => String::new(),
        };
        let rec = vec![("title".to_owned(), Some(title)), ("filename".to_owned(), Some(f.filename.clone()))];
        let ghost before = out@;
        out.push(rec);
        proof {
            reveal_strlit("");
            let fv = specs_view(specs@)[i as int];
            assert(fv == file_spec_view(specs@[i as int]));
            assert(title@ == match fv.0 { Some(t) => t, None => ""@ });
            assert(rec@.len() == 2);
            assert(fields_view(rec@)[0] == ("title"@, Some(title@)));
            assert(fields_view(rec@)[1] == ("filename"@, Some(fv.1)));
            assert(fields_view(rec@) =~= image_records(specs_view(specs@))[i as int]);
            assert(records_view(out@) =~= records_view(before).push(fields_view(rec@)));
            assert(image_records(specs_view(specs@)).take(i + 1) =~= image_records(specs_view(specs@)).take(i as int).push(
                image_records(specs_view(specs@))[i as int],
            ));
        }
        i += 1;
    }
    proof {
        assert(image_records(specs_view(specs@)).take(i as int) =~= image_records(specs_view(specs@)));
    }
    out
}

fn table_list(tables: &Vec<(i64, String)>) -> (res: Vec<Vec<(String, Option<String>)>>)
    ensures
        records_view(res@) == table_records(labeled_views(tables@)),
{
    let mut out: Vec<Vec<(String, Option<String>)>> = Vec::new();
    let mut i: usize = 0;
    while i < tables.len()
        invariant
            i <= tables@.len(),
            records_view(out@) == table_records(labeled_views(tables@)).take(i as int),
        decreases tables@.len() - i,
    {
        let rec = vec![
            ("streams".to_owned(), Some(decimal_text(tables[i].0 as i128))),
            ("filename".to_owned(), Some(tables[i].1.clone())),
        ];
        let ghost before = out@;
        out.push(rec);
        proof {
            assert(labeled_views(tables@)[i as int] == (tables@[i as int].0, tables@[i as int].1@));
            assert(fields_view(rec@) =~= table_records(labeled_views(tables@))[i as int]);
            assert(records_view(out@) =~= records_view(before).push(fields_view(rec@)));
            assert(table_records(labeled_views(tables@)).take(i + 1) =~= table_records(labeled_views(tables@)).take(
                i as int,
            ).push(table_records(labeled_views(tables@))[i as int]));
        }
        i += 1;
    }
    proof {
        assert(table_records(labeled_views(tables@)).take(i as int) =~= table_records(labeled_views(tables@)));
    }
    out
}

/// The body of a run's detailed report page, from the `report` template,
/// given the page's motion-vector comparison and call tree (when attached),
/// the run's commit link, its detail tables in order and the macro
/// identifier: the images of the profiler chart and of the plots with their
/// titles, and each detail table with its stream count.
pub fn detailed_report_body_with(
    template: &str,
    mv_comparison: Option<String>,
    git_commit_url: Option<String>,
    calltree: Option<String>,
    tables: &Vec<(i64, String)>,
    macro_id: &str,
) -> (res: Result<String, TemplateFailure>)
    ensures
        page_outcome(
            res,
            rendered_page(
                "report"@,
                template@,
                detailed_report_fields(text_of(mv_comparison), text_of(git_commit_url), text_of(calltree), macro_id@),
                seq![],
                detailed_report_lists(labeled_views(tables@)),
            ),
        ),
{
    let ghost expected_fields = detailed_report_fields(text_of(mv_comparison), text_of(git_commit_url), text_of(calltree), macro_id@);
    let fields = vec![
        ("mv_comparison".to_owned(), mv_comparison),
        ("git_commit_url".to_owned(), git_commit_url),
        ("calltree".to_owned(), calltree),
        ("macro_id".to_owned(), Some(macro_id.to_owned())),
    ];
    let counts: Vec<(String, u64)> = Vec::new();
    let lists = vec![
        ("vtune_images".to_owned(), image_list(&detailed_report_vtune())),
        ("plots_images".to_owned(), image_list(&detailed_report_plots())),
        ("detail_tables".to_owned(), table_list(tables)),
    ];
    proof {
        assert(fields_view(fields@) =~= expected_fields);
        assert(counts_view(counts@) =~= Seq::<(Seq<char>, u64)>::empty());
        assert(lists_view(lists@) =~= detailed_report_lists(labeled_views(tables@)));
    }
    render_template("report", template, &fields, &counts, &lists)
}

/// Whether `res` is the outcome of rendering a run's detailed report with
/// the detail tables `tables`, ordered from those among `table_names`, and
/// the macro identifier `macro_id`.
pub open spec fn is_detailed_report(
    res: Result<String, TemplateFailure>,
    template: Seq<char>,
    mv_comparison: Option<Seq<char>>,
    git_commit_url: Option<Seq<char>>,
    calltree: Option<Seq<char>>,
    table_names: Seq<Seq<char>>,
    tables: Seq<(i64, Seq<char>)>,
    macro_id: Seq<char>,
) -> bool {
    &&& is_stable_key_order(tables, searched_names(table_names).filter_map(searched_entry()))
    &&& page_outcome(
        res,
        rendered_page(
            "report"@,
            template,
            detailed_report_fields(mv_comparison, git_commit_url, calltree, macro_id),
            seq![],
            detailed_report_lists(tables),
        ),
    )
}

/// The body of a run's detailed report page, as `detailed_report_body_with`
/// gives it for the detail tables among `table_names` (ordered by stream
/// count, equal counts in listed order) and a fresh macro identifier.
pub fn detailed_report_body(
    template: &str,
    mv_comparison: Option<String>,
    git_commit_url: Option<String>,
    calltree: Option<String>,
    table_names: &Vec<String>,
) -> (res: Result<String, TemplateFailure>)
    ensures
        exists|tables: Seq<(i64, Seq<char>)>, macro_id: Seq<char>|
            #[trigger] is_detailed_report(
                res,
                template@,
                text_of(mv_comparison),
                text_of(git_commit_url),
                text_of(calltree),
                names_view(table_names@),
                tables,
                macro_id,
            ),
{
    let tables = detail_tables(table_names);
    let id = new_macro_id();
    let ghost (mv, git, ct) = (text_of(mv_comparison), text_of(git_commit_url), text_of(calltree));
    let res = detailed_report_body_with(template, mv_comparison, git_commit_url, calltree, &tables, id.as_str());
    proof {
        assert(is_detailed_report(res, template@, mv, git, ct, names_view(table_names@), labeled_views(tables@), id@));
    }
    res
}

/// One run on the main dashboard: its heading, its results directory (may
/// be empty), its commit link, and its motion-vector comparison and call
/// tree as attached to the dashboard page, when they are.
pub struct DashboardRun {
    pub title: String,
    pub results_dir: String,
    pub git_commit: Option<String>,
    pub mv_comparison: Option<String>,
    pub calltree: Option<String>,
}

/// The report title a dashboard run shows: none for an empty results
/// directory, else the title of the last component of the directory with
/// its trailing slashes removed. `None` where that title cannot be cut.
pub open spec fn run_report_title(dir: Seq<char>) -> Option<Option<Seq<char>>> {
    if dir.len() == 0 {
        Some(None)
    } else {
        let base = dir_name(strip_suffixes(dir, "/"@));
        match title_for(dir_name(base), regex_captures_of(stamp_pattern(), dir_name(base))) {
            Some(t) => Some(Some(t)),
            None => None,
        }
    }
}

fn report_title_of_run(results_dir: &str) -> (res: Option<Option<String>>)
    ensures
        match res {
            Some(t) => run_report_title(results_dir@) == Some(text_of(t)),
            None => run_report_title(results_dir@) is None,
        },
{
    if results_dir.unicode_len() == 0 {
        return Some(None);
    }
    let slash = chars_of("/");
    proof {
        reveal_strlit("/");
    }
    let trimmed = trim_end_matches(&chars_of(results_dir), &slash);
    let base = match file_name_of(&trimmed) {
        Some(b) => string_from_chars(&b),
        None => String::new(),
    };
    match generate_report_title(base.as_str()) {
        Some(t) => Some(Some(t)),
        None => None,
    }
}

/// The record of a dashboard run: its texts, and the names its files are
/// attached under (after the run's prefix).
pub open spec fn run_record(idx: int, r: DashboardRun, report_title: Option<Seq<char>>, macro_id: Seq<char>) -> Seq<(Seq<char>, Option<Seq<char>>)> {
    let p = run_prefix(idx);
    seq![
        ("title"@, Some(r.title@)),
        ("mv_comparison"@, text_of(r.mv_comparison)),
        ("vtune_hotspots"@, Some(p + "vtune_hotspots.png"@)),
        ("git_commit"@, text_of(r.git_commit)),
        ("calltree"@, text_of(r.calltree)),
        ("detail_table"@, Some(p + "detail_table_1streams_highlighted.png"@)),
        ("cpu_chart"@, Some(p + "grouped_barchart_cpu.png"@)),
        ("speedup_cpu"@, Some(p + "speedup_cpu.png"@)),
        ("speedup_memory"@, Some(p + "speedup_memory.png"@)),
        ("speedup_heatmap"@, Some(p + "speedup_heatmap.png"@)),
        ("memory_chart"@, Some(p + "grouped_barchart_memory.png"@)),
        ("report_title"@, report_title),
        ("macro_id"@, Some(macro_id)),
    ]
}

/// The records of the dashboard's runs, in order; `None` where a run's
/// report title cannot be cut.
pub open spec fn dashboard_records(runs: Seq<DashboardRun>, ids: Seq<Seq<char>>) -> Option<Seq<Seq<(Seq<char>, Option<Seq<char>>)>>>
    decreases runs.len(),
{
    if runs.len() == 0 {
        Some(Seq::empty())
    } else {
        match (dashboard_records(runs.drop_last(), ids), run_report_title(runs.last().results_dir@)) {
            (Some(rs), Some(t)) => Some(rs.push(run_record(runs.len() - 1, runs.last(), t, ids[runs.len() - 1]))),
            _ => None,
        }
    }
}

/// Why a page body could not be made.
#[derive(Debug)]
pub enum PageError {
    /// Rendering the template failed.
    Template(TemplateFailure),
    /// A run's report title would be cut inside a character.
    Title,
}

fn with_prefix(p: &String, name: &str) -> (res: Option<String>)
    ensures
        text_of(res) == Some(p@ + name@),
{
    let mut s = p.clone();
    s.append(name);
    Some(s)
}

fn run_record_exec(idx: usize, r: &DashboardRun, report_title: Option<String>, macro_id: &String) -> (res: Vec<(String, Option<String>)>)
    ensures
        fields_view(res@) == run_record(idx as int, *r, text_of(report_title), macro_id@),
{
    let p = run_prefix_text(idx);
    let ghost rt = text_of(report_title);
    let res = vec![
        ("title".to_owned(), Some(r.title.clone())),
        ("mv_comparison".to_owned(), r.mv_comparison.clone()),
        ("vtune_hotspots".to_owned(), with_prefix(&p, "vtune_hotspots.png")),
        ("git_commit".to_owned(), r.git_commit.clone()),
        ("calltree".to_owned(), r.calltree.clone()),
        ("detail_table".to_owned(), with_prefix(&p, "detail_table_1streams_highlighted.png")),
        ("cpu_chart".to_owned(), with_prefix(&p, "grouped_barchart_cpu.png")),
        ("speedup_cpu".to_owned(), with_prefix(&p, "speedup_cpu.png")),
        ("speedup_memory".to_owned(), with_prefix(&p, "speedup_memory.png")),
        ("speedup_heatmap".to_owned(), with_prefix(&p, "speedup_heatmap.png")),
        ("memory_chart".to_owned(), with_prefix(&p, "grouped_barchart_memory.png")),
        ("report_title".to_owned(), report_title),
        ("macro_id".to_owned(), Some(macro_id.clone())),
    ];
    assert(fields_view(res@) =~= run_record(idx as int, *r, rt, macro_id@));
    res
}

/// The body of the main dashboard, from the `dashboard` template: one
/// record per run, given each run's macro identifier. `Title` where a run's
/// report title cannot be cut.
pub fn dashboard_body_with(template: &str, runs: &Vec<DashboardRun>, macro_ids: &Vec<String>) -> (res: Result<String, PageError>)
    requires
        macro_ids@.len() == runs@.len(),
    ensures
        match dashboard_records(runs@, texts_view(macro_ids@)) {
            None => res matches Err(PageError::Title),
            Some(recs) => match res {
                Ok(s) => rendered_page("dashboard"@, template@, seq![], seq![], seq![("runs"@, recs)]) == Some(s@),
                Err(PageError::Template(_)) => rendered_page("dashboard"@, template@, seq![], seq![], seq![("runs"@, recs)]) is None,
                Err(PageError::Title) => false,
            },
        },
{
    let ghost ids = texts_view(macro_ids@);
    let mut recs: Vec<Vec<(String, Option<String>)>> = Vec::new();
    let mut i: usize = 0;
    proof {
        assert(records_view(recs@) =~= Seq::<Seq<(Seq<char>, Option<Seq<char>>)>>::empty());
        assert(runs@.take(0) =~= Seq::<DashboardRun>::empty());
    }
    while i < runs.len()
        invariant
            i <= runs@.len(),
            macro_ids@.len() == runs@.len(),
            ids == texts_view(macro_ids@),
            dashboard_records(runs@.take(i as int), ids) == Some(records_view(recs@)),
        decreases runs@.len() - i,
    {
        proof {
            assert(runs@.take(i + 1).drop_last() =~= runs@.take(i as int));
            assert(runs@.take(i + 1).last() == runs@[i as int]);
        }
        let title = match report_title_of_run(runs[i].results_dir.as_str()) {
            Some(t) => t,
            None => {
                proof {
                    assert(dashboard_records(runs@.take(i + 1), ids) is None);
                    lemma_records_none_extends(runs@, ids, i as int + 1);
                    assert(runs@.take(runs@.len() as int) =~= runs@);
                }
                return Err(PageError::Title);
            },
        };
        let rec = run_record_exec(i, &runs[i], title, &macro_ids[i]);
        let ghost before = recs@;
        recs.push(rec);
        proof {
            assert(records_view(recs@) =~= records_view(before).push(fields_view(rec@)));
        }
        i += 1;
    }
    proof {
        assert(runs@.take(i as int) =~= runs@);
    }
    let fields: Vec<(String, Option<String>)> = Vec::new();
    let counts: Vec<(String, u64)> = Vec::new();
    let lists = vec![("runs".to_owned(), recs)];
    proof {
        assert(fields_view(fields@) =~= Seq::<(Seq<char>, Option<Seq<char>>)>::empty());
        assert(counts_view(counts@) =~= Seq::<(Seq<char>, u64)>::empty());
        assert(lists_view(lists@) =~= seq![("runs"@, records_view(recs@))]);
    }
    match render_template("dashboard", template, &fields, &counts, &lists) {
        Ok(s) => Ok(s),
        Err(e) => Err(PageError::Template(e)),
    }
}

proof fn lemma_records_none_extends(runs: Seq<DashboardRun>, ids: Seq<Seq<char>>, k: int)
    requires
        0 <= k <= runs.len(),
        dashboard_records(runs.take(k), ids) is None,
    ensures
        dashboard_records(runs, ids) is None,
    decreases runs.len() - k,
{
    if k < runs.len() {
        assert(runs.take(k + 1).drop_last() =~= runs.take(k));
        lemma_records_none_extends(runs, ids, k + 1);
    } else {
        assert(runs.take(k) =~= runs);
    }
}

/// Whether `res` is the dashboard body for the runs with the macro
/// identifiers `ids`.
pub open spec fn is_dashboard(res: Result<String, PageError>, template: Seq<char>, runs: Seq<DashboardRun>, ids: Seq<Seq<char>>) -> bool {
    &&& ids.len() == runs.len()
    &&& match dashboard_records(runs, ids) {
        None => res matches Err(PageError::Title),
        Some(recs) => match res {
            Ok(s) => rendered_page("dashboard"@, template, seq![], seq![], seq![("runs"@, recs)]) == Some(s@),
            Err(PageError::Template(_)) => rendered_page("dashboard"@, template, seq![], seq![], seq![("runs"@, recs)]) is None,
            Err(PageError::Title) => false,
        },
    }
}

/// The body of the main dashboard, as `dashboard_body_with` gives it for a
/// fresh macro identifier per run.
pub fn dashboard_body(template: &str, runs: &Vec<DashboardRun>) -> (res: Result<String, PageError>)
    ensures
        exists|ids: Seq<Seq<char>>| #[trigger] is_dashboard(res, template@, runs@, ids),
{
    let mut ids: Vec<String> = Vec::new();
    let mut i: usize = 0;
    while i < runs.len()
        invariant
            i <= runs@.len(),
            ids@.len() == i,
        decreases runs@.len() - i,
    {
        ids.push(new_macro_id());
        i += 1;
    }
    let res = dashboard_body_with(template, runs, &ids);
    proof {
        assert(is_dashboard(res, template@, runs@, texts_view(ids@)));
    }
    res
}

} // verus!
