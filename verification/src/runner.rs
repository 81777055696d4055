//! The full benchmark pipeline's configuration: where a run keeps its
//! results, and the commands its build, profiling and flamegraph steps run.
//!
//! Paths are `/`-separated text; the working directory and the run's
//! timestamp are given by the caller.

use vstd::prelude::*;
use vstd::string::*;
use crate::text::{decimal_text, int_text, chars_of, string_from_chars};
use crate::paths::{path_join, file_stem, file_stem_of, join_path};
use crate::scan::{lines, views, split_lines, first_index_of, first_char_index, sub_chars, u64_of, parse_u64_radix};

verus! {

/// The result folder name of a run: `<timestamp>_<video stem>_t<threads>`,
/// then `_kf` for key frames only and `_csv` when CSVs are written.
pub open spec fn run_folder_name(timestamp: Seq<char>, stem: Seq<char>, threads: i32, keyframes_only: bool, write_csv: bool) -> Seq<char> {
    timestamp + "_"@ + stem + "_t"@ + int_text(threads as int) + (if keyframes_only { "_kf"@ } else { Seq::<char>::empty() })
        + (if write_csv { "_csv"@ } else { Seq::<char>::empty() })
}

/// The stem of the video file, or `video` when it has none.
pub open spec fn video_stem(video_file: Seq<char>) -> Seq<char> {
    match file_stem(video_file) {
        Some(s) => s,
        None => "video"@,
    }
}

/// Settings and paths of a full benchmark run.
pub struct BenchmarkRunner {
    pub video_file: String,
    pub build_type: String,
    pub video_type: String,
    pub streams: i32,
    pub n_runs: usize,
    pub keyframes_only: bool,
    pub thread_count: i32,
    pub write_csv: bool,
    pub profiler_extractor: u32,
    pub current_dir: String,
    pub results_dir: String,
    pub pkg_config_path: String,
    pub extractor_executables: String,
    pub motion_vectors_comparison_file: String,
    pub slides_config: String,
    pub plots_dir: String,
    pub venv_dir: String,
    pub vtune_dir: String,
    pub vtune_topdown_file: String,
}

/// The commands of one profiling step and where its outputs go.
pub struct ProfilerPlan {
    /// Directory of the libraries the profiled extractor loads.
    pub ffmpeg_lib: String,
    /// Command collecting the hotspots of the extractor run.
    pub collect: String,
    /// Command writing the hotspots report.
    pub report_hotspots: String,
    /// Command writing the top-down report.
    pub report_topdown: String,
}

/// The flamegraph step: its output locations and the `perf` command.
pub struct FlamegraphPlan {
    pub extractor_name: String,
    pub flamegraph_dir: String,
    pub output_html: String,
    pub perf_data: String,
    pub command: String,
    pub title: String,
}

fn join3(base: &str, a: &str, b: &str) -> (res: String)
    ensures
        res@ == path_join(path_join(base@, a@), b@),
{
    let x = join_path(base, a);
    join_path(x.as_str(), b)
}

fn folder_name(timestamp: &str, stem: &str, threads: i32, keyframes_only: bool, write_csv: bool) -> (res: String)
    ensures
        res@ == run_folder_name(timestamp@, stem@, threads, keyframes_only, write_csv),
{
    let mut s = timestamp.to_owned();
    s.append("_");
    s.append(stem);
    s.append("_t");
    s.append(decimal_text(threads as i128).as_str());
    if keyframes_only {
        s.append("_kf");
    }
    if write_csv {
        s.append("_csv");
    }
    proof {
        assert(s@ =~= run_folder_name(timestamp@, stem@, threads, keyframes_only, write_csv));
    }
    s
}


/// The `KEY=VALUE` pairs of an environment listing (`env` output): each line
/// split at its first `=`; lines without `=` are skipped.
pub open spec fn listing_entry() -> spec_fn(Seq<char>) -> Option<(Seq<char>, Seq<char>)> {
    |l: Seq<char>| match first_index_of(l, '=') {
        Some(p) => Some((l.subrange(0, p), l.subrange(p + 1, l.len() as int))),
        None => None,
    }
}

pub open spec fn env_listing(text: Seq<char>) -> Seq<(Seq<char>, Seq<char>)> {
    lines(text).filter_map(listing_entry())
}

pub open spec fn env_pairs_view(v: Seq<(String, String)>) -> Seq<(Seq<char>, Seq<char>)> {
    v.map_values(|p: (String, String)| (p.0@, p.1@))
}

/// The variables an environment listing sets, in order.
pub fn parse_env_listing(text: &str) -> (res: Vec<(String, String)>)
    ensures
        env_pairs_view(res@) == env_listing(text@),
{
    let ls = split_lines(&chars_of(text));
    let ghost lv = views(ls@);
    let mut out: Vec<(String, String)> = Vec::new();
    let mut i: usize = 0;
    proof {
        assert(lv.take(0) =~= Seq::<Seq<char>>::empty());
        assert(env_pairs_view(out@) =~= lv.take(0).filter_map(listing_entry()));
    }
    while i < ls.len()
        invariant
            i <= ls@.len(),
            lv == views(ls@),
            lv == lines(text@),
            env_pairs_view(out@) == lv.take(i as int).filter_map(listing_entry()),
        decreases ls@.len() - i,
    {
        proof {
            lv.lemma_filter_map_take_succ(listing_entry(), i as int);
            assert(lv[i as int] == ls@[i as int]@);
        }
        let l = &ls[i];
        let n = l.len();
        let ghost before = out@;
        match first_char_index(l, '=') {
            Some(p) => {
                let k = string_from_chars(&sub_chars(l, 0, p));
                let v = string_from_chars(&sub_chars(l, p + 1, n));
                out.push((k, v));
                proof {
                    assert(env_pairs_view(out@) =~= env_pairs_view(before).push((k@, v@)));
                }
            },
            None => {},
        }
        proof {
            assert(env_pairs_view(out@) =~= lv.take(i + 1).filter_map(listing_entry()));
        }
        i += 1;
    }
    proof {
        assert(lv.take(i as int) =~= lv);
    }
    out
}

pub open spec fn env_keys(env: Seq<(Seq<char>, Seq<char>)>) -> Seq<Seq<char>> {
    env.map_values(|e: (Seq<char>, Seq<char>)| e.0)
}

/// Whether a listing sets `VTUNE_PROFILER_DIR`.
pub fn sets_vtune_dir(env: &Vec<(String, String)>) -> (res: bool)
    ensures
        res == env_keys(env_pairs_view(env@)).contains("VTUNE_PROFILER_DIR"@),
{
    let key = "VTUNE_PROFILER_DIR".to_owned();
    let ghost keys = env_keys(env_pairs_view(env@));
    let mut i: usize = 0;
    while i < env.len()
        invariant
            i <= env@.len(),
            keys == env_keys(env_pairs_view(env@)),
            key@ == "VTUNE_PROFILER_DIR"@,
            forall|j: int| 0 <= j < i ==> keys[j] != key@,
        decreases env@.len() - i,
    {
        if env[i].0 == key {
            proof {
                assert(keys[i as int] == key@);
            }
            return true;
        }
        i += 1;
    }
    false
}

/// The environment the profiled extractor runs in: `LD_LIBRARY_PATH` becomes
/// `<lib>/libavutil:<lib>/libavformat:<previous value>`, set in the first
/// entry of that name or appended when there is none (previous value empty).
pub open spec fn library_path_env(env: Seq<(Seq<char>, Seq<char>)>, lib: Seq<char>) -> Seq<(Seq<char>, Seq<char>)> {
    let key = "LD_LIBRARY_PATH"@;
    match env_keys(env).index_of_first(key) {
        Some(i) => env.update(i, (key, lib + "/libavutil:"@ + lib + "/libavformat:"@ + env[i].1)),
        None => env.push((key, lib + "/libavutil:"@ + lib + "/libavformat:"@)),
    }
}

/// Sets `LD_LIBRARY_PATH` for the profiled extractor (see `library_path_env`).
pub fn with_library_path(env: &Vec<(String, String)>, ffmpeg_lib: &str) -> (res: Vec<(String, String)>)
    ensures
        env_pairs_view(res@) == library_path_env(env_pairs_view(env@), ffmpeg_lib@),
{
    let key = "LD_LIBRARY_PATH".to_owned();
    let ghost ev = env_pairs_view(env@);
    let ghost keys = env_keys(ev);
    let mut prefix = ffmpeg_lib.to_owned();
    prefix.append("/libavutil:");
    prefix.append(ffmpeg_lib);
    prefix.append("/libavformat:");
    let mut out: Vec<(String, String)> = Vec::new();
    let mut found = false;
    let mut i: usize = 0;
    while i < env.len()
        invariant
            i <= env@.len(),
            ev == env_pairs_view(env@),
            keys == env_keys(ev),
            key@ == "LD_LIBRARY_PATH"@,
            prefix@ == ffmpeg_lib@ + "/libavutil:"@ + ffmpeg_lib@ + "/libavformat:"@,
            out@.len() == i,
            found <==> exists|j: int| 0 <= j < i && keys[j] == key@,
            !found ==> env_pairs_view(out@) == ev.take(i as int),
            found ==> {
                let f = keys.index_of_first(key@)->0;
                &&& keys.index_of_first(key@) is Some
                &&& f < i
                &&& env_pairs_view(out@) == ev.take(i as int).update(f, (key@, prefix@ + ev[f].1))
            },
        decreases env@.len() - i,
    {
        let ghost before = out@;
        proof {
            keys.index_of_first_ensures(key@);
        }
        if !found && env[i].0 == key {
            let mut v = prefix.clone();
            v.append(env[i].1.as_str());
            out.push((key.clone(), v));
            found = true;
            proof {
                assert(keys[i as int] == key@);
                assert(keys.contains(key@));
                let f = keys.index_of_first(key@)->0;
                assert(f == i) by {
                    if f < i {
                        assert(keys[f] == key@);
                    } else if f > i {
                        assert(keys[i as int] != key@);
                    }
                }
                assert(env_pairs_view(out@) =~= ev.take(i + 1).update(f, (key@, prefix@ + ev[f].1)));
            }
        } else {
            out.push((env[i].0.clone(), env[i].1.clone()));
            proof {
                assert(env_pairs_view(out@) =~= env_pairs_view(before).push(ev[i as int]));
                if found {
                    let f = keys.index_of_first(key@)->0;
                    let x = (key@, prefix@ + ev[f].1);
                    assert(ev.take(i + 1).update(f, x) =~= ev.take(i as int).update(f, x).push(ev[i as int]));
                    assert(env_pairs_view(out@) =~= ev.take(i + 1).update(f, x));
                } else {
                    assert(keys[i as int] != key@);
                    assert(env_pairs_view(out@) =~= ev.take(i + 1));
                }
            }
        }
        i += 1;
    }
    proof {
        assert(ev.take(i as int) =~= ev);
        keys.index_of_first_ensures(key@);
        if !found {
            if keys.contains(key@) {
                let j = choose|j: int| 0 <= j < keys.len() && keys[j] == key@;
                assert(keys[j] == key@);
            }
        }
    }
    if !found {
        out.push((key, prefix));
        proof {
            assert(env_pairs_view(out@) =~= ev.push(("LD_LIBRARY_PATH"@, ffmpeg_lib@ + "/libavutil:"@ + ffmpeg_lib@ + "/libavformat:"@)));
        }
    }
    out
}

/// A method number chosen through an environment variable: the variable's
/// value when it reads as a `u32`, the default otherwise.
pub fn method_choice(value: Option<&str>, default: u32) -> (res: u32)
    ensures
        res == match value {
            Some(v) => match u64_of(v@, 10) {
                Some(x) => if x <= u32::MAX { x as u32 } else { default },
                None => default,
            },
            None => default,
        },
{
    match value {
        Some(v) => match parse_u64_radix(&chars_of(v), 10) {
            Some(x) => if x <= 0xffff_ffff {
                x as u32
            } else {
                default
            },
            None => default,
        },
        None => default,
    }
}

/// Whether the comparison keeps list-0 vectors only: unless the variable is
/// set to `0`.
pub fn list0_only(value: Option<&str>) -> (res: bool)
    ensures
        res == match value {
            Some(v) => v@ != "0"@,
            None => true,
        },
{
    match value {
        Some(v) => {
            let z = "0".to_owned();
            let s = v.to_owned();
            !(s == z)
        },
        None => true,
    }
}

impl BenchmarkRunner {
    /// The configuration of a run started in `current_dir` at `run_timestamp`
    /// (formatted `YYYYmmdd_HHMM`): results go to
    /// `<current_dir>/results/<video_type>/<run folder>`.
    pub fn new(
        video_file: &str,
        video_type: &str,
        build_type: &str,
        streams: i32,
        n_runs: usize,
        thread_count: i32,
        keyframes_only: bool,
        write_csv: bool,
        profiler_extractor: u32,
        current_dir: &str,
        run_timestamp: &str,
    ) -> (r: BenchmarkRunner)
        ensures
            r.video_file@ == video_file@,
            r.build_type@ == build_type@,
            r.video_type@ == video_type@,
            r.streams == streams,
            r.n_runs == n_runs,
            r.keyframes_only == keyframes_only,
            r.thread_count == thread_count,
            r.write_csv == write_csv,
            r.profiler_extractor == profiler_extractor,
            r.current_dir@ == current_dir@,
            r.results_dir@ == path_join(path_join(path_join(current_dir@, "results"@), video_type@),
                run_folder_name(run_timestamp@, video_stem(video_file@), thread_count, keyframes_only, write_csv)),
            r.pkg_config_path@ == path_join(path_join(path_join(path_join(current_dir@, "ffmpeg"@), "FFmpeg-8.0"@), "lib"@), "pkgconfig"@),
            r.extractor_executables@ == path_join(current_dir@, "executables"@),
            r.motion_vectors_comparison_file@ == path_join(r.results_dir@, "mv_comparison_result.txt"@),
            r.slides_config@ == path_join(path_join(current_dir@, "scripts"@), "slides_config.json"@),
            r.plots_dir@ == path_join(r.results_dir@, "plots"@),
            r.venv_dir@ == path_join(path_join(current_dir@, ".."@), "venv-motion-vectors"@),
            r.vtune_dir@ == path_join(r.results_dir@, "vtune_results"@),
            r.vtune_topdown_file@ == path_join(r.vtune_dir@, "topdown.csv"@),
    {
        let stem = match file_stem_of(video_file) {
            Some(s) => s,
            None => "video".to_owned(),
        };
        let folder = folder_name(run_timestamp, stem.as_str(), thread_count, keyframes_only, write_csv);
        let results_type = join3(current_dir, "results", video_type);
        let results_dir = join_path(results_type.as_str(), folder.as_str());
        let ffmpeg_dir = join3(current_dir, "ffmpeg", "FFmpeg-8.0");
        let pkg_config_path = join3(ffmpeg_dir.as_str(), "lib", "pkgconfig");
        let extractor_executables = join_path(current_dir, "executables");
        let motion_vectors_comparison_file = join_path(results_dir.as_str(), "mv_comparison_result.txt");
        let slides_config = join3(current_dir, "scripts", "slides_config.json");
        let plots_dir = join_path(results_dir.as_str(), "plots");
        let venv_dir = join3(current_dir, "..", "venv-motion-vectors");
        let vtune_dir = join_path(results_dir.as_str(), "vtune_results");
        let vtune_topdown_file = join_path(vtune_dir.as_str(), "topdown.csv");
        BenchmarkRunner {
            video_file: video_file.to_owned(),
            build_type: build_type.to_owned(),
            video_type: video_type.to_owned(),
            streams,
            n_runs,
            keyframes_only,
            thread_count,
            write_csv,
            profiler_extractor,
            current_dir: current_dir.to_owned(),
            results_dir,
            pkg_config_path,
            extractor_executables,
            motion_vectors_comparison_file,
            slides_config,
            plots_dir,
            venv_dir,
            vtune_dir,
            vtune_topdown_file,
        }
    }

    /// The two `make` invocations of the build step: the extractors (the
    /// `build_sys` target for the `sys` build type, `build` otherwise), then
    /// the tools.
    pub fn build_commands(&self) -> (res: (String, String))
        ensures
            res.0@ == (if self.build_type@ == "sys"@ { "make build_sys"@ } else { "make build"@ }),
            res.1@ == "make build_tools"@,
    {
        let sys = "sys".to_owned();
        let target = if self.build_type == sys {
            "make build_sys".to_owned()
        } else {
            "make build".to_owned()
        };
        (target, "make build_tools".to_owned())
    }

    /// The VTune steps of the profiler: the hotspots collection on
    /// `extractor4` (printing, verbose and single-threaded, CSV next to the
    /// results) and the hotspots and top-down reports.
    pub fn profiler_plan(&self) -> (p: ProfilerPlan)
        ensures
            p.ffmpeg_lib@ == path_join(path_join(path_join(self.current_dir@, "ffmpeg"@), "ffmpeg-8.0-custom"@), "lib"@),
            p.collect@ == "vtune -collect hotspots -knob sampling-mode=sw -result-dir "@ + self.vtune_dir@ + " -- "@
                + path_join(self.extractor_executables@, "extractor4"@) + " "@ + self.video_file@ + " 1 "@
                + path_join(self.results_dir@, "method4_output_vtune.csv"@) + " 1 1"@,
            p.report_hotspots@ == "vtune -report hotspots -result-dir "@ + self.vtune_dir@
                + " -format csv -report-output "@ + path_join(self.vtune_dir@, "hotspots.csv"@),
            p.report_topdown@ == "vtune -report top-down -result-dir "@ + self.vtune_dir@
                + " -format csv -report-output "@ + self.vtune_topdown_file@,
    {
        let ffmpeg_lib = join3(join_path(self.current_dir.as_str(), "ffmpeg").as_str(), "ffmpeg-8.0-custom", "lib");
        let exe = join_path(self.extractor_executables.as_str(), "extractor4");
        let csv = join_path(self.results_dir.as_str(), "method4_output_vtune.csv");
        let mut collect = "vtune -collect hotspots -knob sampling-mode=sw -result-dir ".to_owned();
        collect.append(self.vtune_dir.as_str());
        collect.append(" -- ");
        collect.append(exe.as_str());
        collect.append(" ");
        collect.append(self.video_file.as_str());
        collect.append(" 1 ");
        collect.append(csv.as_str());
        collect.append(" 1 1");
        let hotspots = join_path(self.vtune_dir.as_str(), "hotspots.csv");
        let mut report_hotspots = "vtune -report hotspots -result-dir ".to_owned();
        report_hotspots.append(self.vtune_dir.as_str());
        report_hotspots.append(" -format csv -report-output ");
        report_hotspots.append(hotspots.as_str());
        let mut report_topdown = "vtune -report top-down -result-dir ".to_owned();
        report_topdown.append(self.vtune_dir.as_str());
        report_topdown.append(" -format csv -report-output ");
        report_topdown.append(self.vtune_topdown_file.as_str());
        proof {
            assert(collect@ =~= "vtune -collect hotspots -knob sampling-mode=sw -result-dir "@ + self.vtune_dir@ + " -- "@
                + exe@ + " "@ + self.video_file@ + " 1 "@ + csv@ + " 1 1"@);
            assert(report_hotspots@ =~= "vtune -report hotspots -result-dir "@ + self.vtune_dir@
                + " -format csv -report-output "@ + hotspots@);
            assert(report_topdown@ =~= "vtune -report top-down -result-dir "@ + self.vtune_dir@
                + " -format csv -report-output "@ + self.vtune_topdown_file@);
        }
        ProfilerPlan { ffmpeg_lib, collect, report_hotspots, report_topdown }
    }

    /// The flamegraph step for `extractor<profiler_extractor>`: record its
    /// run with `perf_bin` (the custom FFmpeg's libraries for extractors 3
    /// and up, the regular ones below, ahead of `existing_ld`), outputs
    /// under `<results_dir>/flamegraph`.
    pub fn flamegraph_plan(&self, perf_bin: &str, existing_ld: &str) -> (p: FlamegraphPlan)
        ensures
            p.extractor_name@ == "extractor"@ + int_text(self.profiler_extractor as int),
            p.flamegraph_dir@ == path_join(self.results_dir@, "flamegraph"@),
            p.output_html@ == path_join(p.flamegraph_dir@, p.extractor_name@ + "_flamegraph.html"@),
            p.perf_data@ == path_join(p.flamegraph_dir@, "perf.data"@),
            p.command@ == "LD_LIBRARY_PATH="@
                + path_join(path_join(path_join(self.current_dir@, "ffmpeg"@),
                    if self.profiler_extractor >= 3 { "FFmpeg-8.0-custom"@ } else { "FFmpeg-8.0"@ }), "lib"@)
                + ":"@ + existing_ld@ + " "@ + perf_bin@ + " record -g --call-graph dwarf -F 99 -o "@ + p.perf_data@
                + " -- "@ + path_join(self.extractor_executables@, p.extractor_name@) + " "@ + self.video_file@ + " 0 "@
                + path_join(self.results_dir@, "method"@ + int_text(self.profiler_extractor as int) + "_output_flamegraph.csv"@)
                + " 1 "@ + int_text(self.thread_count as int) + " "@ + (if self.keyframes_only { "1"@ } else { "0"@ }),
            p.title@ == p.extractor_name@ + " Flamegraph (perf)"@,
    {
        let id = decimal_text(self.profiler_extractor as i128);
        let mut extractor_name = "extractor".to_owned();
        extractor_name.append(id.as_str());
        let flamegraph_dir = join_path(self.results_dir.as_str(), "flamegraph");
        let mut html_name = extractor_name.clone();
        html_name.append("_flamegraph.html");
        let output_html = join_path(flamegraph_dir.as_str(), html_name.as_str());
        let variant = if self.profiler_extractor >= 3 { "FFmpeg-8.0-custom" } else { "FFmpeg-8.0" };
        let ffmpeg_lib = join3(join_path(self.current_dir.as_str(), "ffmpeg").as_str(), variant, "lib");
        let perf_data = join_path(flamegraph_dir.as_str(), "perf.data");
        let mut csv_name = "method".to_owned();
        csv_name.append(id.as_str());
        csv_name.append("_output_flamegraph.csv");
        let output_csv = join_path(self.results_dir.as_str(), csv_name.as_str());
        let exe = join_path(self.extractor_executables.as_str(), extractor_name.as_str());
        let mut command = "LD_LIBRARY_PATH=".to_owned();
        command.append(ffmpeg_lib.as_str());
        command.append(":");
        command.append(existing_ld);
        command.append(" ");
        command.append(perf_bin);
        command.append(" record -g --call-graph dwarf -F 99 -o ");
        command.append(perf_data.as_str());
        command.append(" -- ");
        command.append(exe.as_str());
        command.append(" ");
        command.append(self.video_file.as_str());
        command.append(" 0 ");
        command.append(output_csv.as_str());
        command.append(" 1 ");
        command.append(decimal_text(self.thread_count as i128).as_str());
        command.append(" ");
        command.append(if self.keyframes_only { "1" } else { "0" });
        let mut title = extractor_name.clone();
        title.append(" Flamegraph (perf)");
        proof {
            assert(extractor_name@ =~= "extractor"@ + int_text(self.profiler_extractor as int));
            assert(html_name@ =~= extractor_name@ + "_flamegraph.html"@);
            assert(csv_name@ =~= "method"@ + int_text(self.profiler_extractor as int) + "_output_flamegraph.csv"@);
            assert(title@ =~= extractor_name@ + " Flamegraph (perf)"@);
            assert(command@ =~= "LD_LIBRARY_PATH="@ + ffmpeg_lib@ + ":"@ + existing_ld@ + " "@ + perf_bin@
                + " record -g --call-graph dwarf -F 99 -o "@ + perf_data@ + " -- "@ + exe@ + " "@ + self.video_file@
                + " 0 "@ + output_csv@ + " 1 "@ + int_text(self.thread_count as int) + " "@
                + (if self.keyframes_only { "1"@ } else { "0"@ }));
        }
        FlamegraphPlan { extractor_name, flamegraph_dir, output_html, perf_data, command, title }
    }

    /// `<results_dir>/method<method>_output_0.csv`: the CSV of the first
    /// stream of a method, which the motion-vector comparison reads.
    pub fn comparison_csv(&self, method: u32) -> (res: String)
        ensures
            res@ == path_join(self.results_dir@, "method"@ + int_text(method as int) + "_output_0.csv"@),
    {
        let mut name = "method".to_owned();
        name.append(decimal_text(method as i128).as_str());
        name.append("_output_0.csv");
        proof {
            assert(name@ =~= "method"@ + int_text(method as int) + "_output_0.csv"@);
        }
        join_path(self.results_dir.as_str(), name.as_str())
    }
}

} // verus!
