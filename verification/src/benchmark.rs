//! Benchmark bookkeeping: which stream counts a benchmark sweep runs, the
//! naming scheme of the extractor executables and their CSV outputs, and the
//! totals over what the extractor processes of a run report.

use vstd::prelude::*;
use vstd::string::*;
use crate::text::{decimal_text, int_text, chars_of};
use crate::scan::{words, split_whitespace, views, i32_of, i64_of, parse_i32, parse_i64, replace_char, replace_char_exec};
use crate::text::string_from_chars;

verus! {

/// The stream counts of a sweep up to `max`: those of 1, 3 and 5 that do not
/// exceed `max`, then every multiple of 5 from 10 up to `max`.
pub open spec fn stream_runs(max: int) -> Seq<i32> {
    let small: Seq<i32> = if max >= 5 {
        seq![1i32, 3i32, 5i32]
    } else if max >= 3 {
        seq![1i32, 3i32]
    } else if max >= 1 {
        seq![1i32]
    } else {
        seq![]
    };
    let n: nat = if max >= 10 { ((max - 10) / 5 + 1) as nat } else { 0 };
    small + Seq::new(n, |i: int| (10 + 5 * i) as i32)
}

/// Whether `x` is one of the stream counts a sweep up to `max` runs.
pub open spec fn is_stream_run(x: int, max: int) -> bool {
    &&& x <= max
    &&& (x == 1 || x == 3 || x == 5 || (x >= 10 && x % 5 == 0))
}

/// The most streams of one extractor a benchmark run starts at once.
pub const MAX_STREAMS: i32 = 100;

/// Whether a benchmark run may start `streams` copies of each extractor:
/// at least one and at most `MAX_STREAMS`.
pub fn stream_count_allowed(streams: i32) -> (res: bool)
    ensures
        res == (1 <= streams <= MAX_STREAMS),
{
    1 <= streams && streams <= MAX_STREAMS
}

/// Stream counts to benchmark for a sweep whose largest stream count is
/// `max_streams`.
pub fn generate_stream_runs(max_streams: i32) -> (res: Vec<i32>)
    requires
        max_streams <= i32::MAX - 3,
    ensures
        res@ == stream_runs(max_streams as int),
        // the sweep is strictly increasing ...
        forall|i: int, j: int| 0 <= i < j < res@.len() ==> res@[i] < res@[j],
        // ... and holds exactly the stream counts of the sweep
        forall|x: i32| #[trigger] is_stream_run(x as int, max_streams as int) <==> res@.contains(x),
{
    let mut base: Vec<i32> = Vec::new();
    if 1 <= max_streams {
        base.push(1);
    }
    if 3 <= max_streams {
        base.push(3);
    }
    if 5 <= max_streams {
        base.push(5);
    }
    let ghost small = base@;
    if max_streams > 5 {
        let mut s: i32 = 10;
        while s <= max_streams
            invariant
                10 <= s <= max_streams + 5,
                max_streams <= i32::MAX - 3,
                s % 5 == 0,
                base@ == small + Seq::new(((s - 10) / 5) as nat, |i: int| (10 + 5 * i) as i32),
            decreases max_streams + 5 - s,
        {
            assert(s <= i32::MAX - 7);
            base.push(s);
            proof {
                assert(base@ =~= small + Seq::new(((s + 5 - 10) / 5) as nat, |i: int| (10 + 5 * i) as i32));
            }
            s += 5;
        }
        proof {
            assert(((s - 10) / 5) as nat == (if max_streams >= 10 { ((max_streams - 10) / 5 + 1) as nat } else { 0nat }));
        }
    }
    proof {
        assert(base@ =~= stream_runs(max_streams as int));
        let n: nat = if max_streams >= 10 { ((max_streams - 10) / 5 + 1) as nat } else { 0 };
        assert forall|i: int, j: int| 0 <= i < j < base@.len() implies base@[i] < base@[j] by {
            if j >= small.len() {
                assert(base@[j] == (10 + 5 * (j - small.len())) as i32);
            }
        }
        assert forall|x: i32| #[trigger] is_stream_run(x as int, max_streams as int) <==> base@.contains(x) by {
            if is_stream_run(x as int, max_streams as int) {
                if x >= 10 {
                    let k = (x - 10) / 5;
                    assert(base@[small.len() + k] == x);
                } else if x == 1 {
                    assert(base@[0] == 1);
                } else if x == 3 {
                    assert(base@[1] == 3);
                } else {
                    assert(base@[2] == 5);
                }
            }
            if base@.contains(x) {
                let k = choose|k: int| 0 <= k < base@.len() && base@[k] == x;
                if k >= small.len() {
                    assert(base@[k] == (10 + 5 * (k - small.len())) as i32);
                }
            }
        }
    }
    base
}


/// One extraction method of the benchmark suite: extractor executable
/// `extractor<id>` and its display name.
pub struct MethodInfo {
    pub id: i32,
    pub name: &'static str,
}

/// Display name of extraction method `i`.
pub open spec fn method_name(i: int) -> Seq<char> {
    if i == 0 {
        "Original FFmpeg MV only"@
    } else if i == 1 {
        "Original FFmpeg - Flush decoder"@
    } else if i == 2 {
        "Original FFMPEG decode frames"@
    } else if i == 3 {
        "Original FFmpeg - Key frames only"@
    } else if i == 4 {
        "Custom FFmpeg MV-Only - RTSP protocol"@
    } else if i == 5 {
        "Custom FFmpeg - Flush decoder"@
    } else if i == 6 {
        "Custom FFmpeg"@
    } else {
        "Custom FFmpeg - Key frames only"@
    }
}

/// The extraction methods the benchmark suite runs, in report order.
pub fn methods() -> (res: Vec<MethodInfo>)
    ensures
        res@.len() == 8,
        forall|i: int| 0 <= i < 8 ==> (#[trigger] res@[i]).id == i && res@[i].name@ == method_name(i),
{
    let mut v: Vec<MethodInfo> = Vec::new();
    v.push(MethodInfo { id: 0, name: "Original FFmpeg MV only" });
    v.push(MethodInfo { id: 1, name: "Original FFmpeg - Flush decoder" });
    v.push(MethodInfo { id: 2, name: "Original FFMPEG decode frames" });
    v.push(MethodInfo { id: 3, name: "Original FFmpeg - Key frames only" });
    v.push(MethodInfo { id: 4, name: "Custom FFmpeg MV-Only - RTSP protocol" });
    v.push(MethodInfo { id: 5, name: "Custom FFmpeg - Flush decoder" });
    v.push(MethodInfo { id: 6, name: "Custom FFmpeg" });
    v.push(MethodInfo { id: 7, name: "Custom FFmpeg - Key frames only" });
    proof {
        assert forall|i: int| 0 <= i < 8 implies (#[trigger] v@[i]).id == i && v@[i].name@ == method_name(i) by {
            if i == 0 {} else if i == 1 {} else if i == 2 {} else if i == 3 {} else if i == 4 {} else if i == 5 {} else if i == 6 {} else {}
        }
    }
    v
}

impl MethodInfo {
    /// `<exe_dir>/executables/extractor<id>`.
    pub fn exe_path(&self, exe_dir: &str) -> (res: String)
        ensures
            res@ == exe_dir@ + "/executables/extractor"@ + int_text(self.id as int),
    {
        let mut s = String::new();
        s.append(exe_dir);
        s.append("/executables/extractor");
        s.append(decimal_text(self.id as i128).as_str());
        proof {
            assert(s@ =~= exe_dir@ + "/executables/extractor"@ + int_text(self.id as int));
        }
        s
    }

    /// `method<id>_output`, the prefix of the CSV files of this method.
    pub fn output_csv_prefix(&self) -> (res: String)
        ensures
            res@ == "method"@ + int_text(self.id as int) + "_output"@,
    {
        let mut s = String::new();
        s.append("method");
        s.append(decimal_text(self.id as i128).as_str());
        s.append("_output");
        proof {
            assert(s@ =~= "method"@ + int_text(self.id as int) + "_output"@);
        }
        s
    }
}

/// `<output_dir>/<prefix>_<stream>.csv`: the CSV a stream of a method writes.
pub fn stream_csv_path(output_dir: &str, prefix: &str, stream: i32) -> (res: String)
    ensures
        res@ == output_dir@ + "/"@ + prefix@ + "_"@ + int_text(stream as int) + ".csv"@,
{
    let mut s = String::new();
    s.append(output_dir);
    s.append("/");
    s.append(prefix);
    s.append("_");
    s.append(decimal_text(stream as i128).as_str());
    s.append(".csv");
    proof {
        assert(s@ =~= output_dir@ + "/"@ + prefix@ + "_"@ + int_text(stream as int) + ".csv"@);
    }
    s
}

pub open spec fn bit_arg(b: bool) -> Seq<char> {
    if b { "1"@ } else { "0"@ }
}

fn bit_string(b: bool) -> (res: String)
    ensures
        res@ == bit_arg(b),
{
    let mut s = String::new();
    if b {
        s.append("1");
    } else {
        s.append("0");
    }
    proof {
        assert(s@ =~= bit_arg(b));
    }
    s
}

/// The argument vector a benchmark stream runs its extractor with:
/// `<exe> <video> <print csv> <csv path> <verbose> <single threaded>`, each
/// flag `1` or `0`; streams after the first are never verbose.
pub fn extractor_argv(
    method: &MethodInfo,
    video_file: &str,
    stream: i32,
    print_csv: bool,
    output_dir: &str,
    exe_dir: &str,
    is_verbose: bool,
    single_threaded: bool,
) -> (res: Vec<String>)
    ensures
        res@.len() == 6,
        res@[0]@ == exe_dir@ + "/executables/extractor"@ + int_text(method.id as int),
        res@[1]@ == video_file@,
        res@[2]@ == bit_arg(print_csv),
        res@[3]@ == output_dir@ + "/"@ + "method"@ + int_text(method.id as int) + "_output"@ + "_"@
            + int_text(stream as int) + ".csv"@,
        res@[4]@ == bit_arg(stream <= 0 && is_verbose),
        res@[5]@ == bit_arg(single_threaded),
{
    let mut v: Vec<String> = Vec::new();
    v.push(method.exe_path(exe_dir));
    v.push(video_file.to_owned());
    v.push(bit_string(print_csv));
    let prefix = method.output_csv_prefix();
    v.push(stream_csv_path(output_dir, prefix.as_str(), stream));
    v.push(bit_string(stream <= 0 && is_verbose));
    v.push(bit_string(single_threaded));
    v
}


/// The counts an extractor reports on its standard output: frames decoded,
/// motion vectors found and, when present and readable, its resident-set
/// size in kilobytes.
pub open spec fn child_report(s: Seq<char>) -> Option<(i32, i64, Option<i64>)> {
    let w = words(s);
    if w.len() >= 2 && i32_of(w[0]) is Some && i64_of(w[1]) is Some {
        Some((i32_of(w[0])->0, i64_of(w[1])->0, if w.len() >= 3 { i64_of(w[2]) } else { None }))
    } else {
        None
    }
}

/// Reads the `<frames> <motion vectors> [<rss kB>]` line an extractor prints.
pub fn parse_child_report(text: &str) -> (res: Option<(i32, i64, Option<i64>)>)
    ensures
        res == child_report(text@),
{
    let w = split_whitespace(&chars_of(text));
    if w.len() < 2 {
        return None;
    }
    let frames = match parse_i32(&w[0]) {
        Some(f) => f,
        None => return None,
    };
    let mvs = match parse_i64(&w[1]) {
        Some(m) => m,
        None => return None,
    };
    let rss = if w.len() >= 3 { parse_i64(&w[2]) } else { None };
    Some((frames, mvs, rss))
}

/// What is known of one finished extractor process: its report, if it exited
/// normally and printed a readable one, and the peak resident-set size in
/// kilobytes that the operating system accounted to it.
pub type ChildOutcome = (Option<(i32, i64, Option<i64>)>, i64);

/// Frames a process contributes to the totals.
pub open spec fn outcome_frames(c: ChildOutcome) -> int {
    match c.0 {
        Some(r) => r.0 as int,
        None => 0,
    }
}

/// Motion vectors a process contributes to the totals.
pub open spec fn outcome_mvs(c: ChildOutcome) -> int {
    match c.0 {
        Some(r) => r.1 as int,
        None => 0,
    }
}

/// The memory of a process: the size it reported itself when that is
/// positive, else the size the operating system accounted to it.
pub open spec fn outcome_rss(c: ChildOutcome) -> int {
    match c.0 {
        Some(r) => match r.2 {
            Some(kb) => if kb > 0 { kb as int } else { c.1 as int },
            None => c.1 as int,
        },
        None => c.1 as int,
    }
}

pub open spec fn frames_sum(cs: Seq<ChildOutcome>) -> int
    decreases cs.len(),
{
    if cs.len() == 0 { 0 } else { frames_sum(cs.drop_last()) + outcome_frames(cs.last()) }
}

pub open spec fn mvs_sum(cs: Seq<ChildOutcome>) -> int
    decreases cs.len(),
{
    if cs.len() == 0 { 0 } else { mvs_sum(cs.drop_last()) + outcome_mvs(cs.last()) }
}

pub open spec fn rss_sum(cs: Seq<ChildOutcome>) -> int
    decreases cs.len(),
{
    if cs.len() == 0 { 0 } else { rss_sum(cs.drop_last()) + outcome_rss(cs.last()) }
}

/// The largest memory of one process, and 0 when none exceeds 0.
pub open spec fn rss_peak(cs: Seq<ChildOutcome>) -> int
    decreases cs.len(),
{
    if cs.len() == 0 {
        0
    } else {
        let p = rss_peak(cs.drop_last());
        let r = outcome_rss(cs.last());
        if r > p { r } else { p }
    }
}

/// The peak memory of a run is the largest memory of one of its processes:
/// no process used more, no memory is below nothing, and it is the memory
/// of some process unless it is 0.
pub proof fn lemma_peak_is_largest(cs: Seq<ChildOutcome>)
    ensures
        forall|i: int| 0 <= i < cs.len() ==> outcome_rss(#[trigger] cs[i]) <= rss_peak(cs),
        rss_peak(cs) >= 0,
        rss_peak(cs) == 0 || exists|i: int| 0 <= i < cs.len() && rss_peak(cs) == outcome_rss(#[trigger] cs[i]),
    decreases cs.len(),
{
    if cs.len() > 0 {
        let p = cs.drop_last();
        lemma_peak_is_largest(p);
        assert forall|i: int| 0 <= i < cs.len() implies outcome_rss(#[trigger] cs[i]) <= rss_peak(cs) by {
            if i < p.len() {
                assert(cs[i] == p[i]);
            }
        }
        if rss_peak(cs) != 0 {
            if rss_peak(cs) == outcome_rss(cs.last()) {
                assert(cs[cs.len() - 1] == cs.last());
            } else {
                let i = choose|i: int| 0 <= i < p.len() && rss_peak(p) == outcome_rss(#[trigger] p[i]);
                assert(cs[i] == p[i]);
            }
        }
    }
}

/// Whether every running total over the processes, taken in order, fits
/// the width the totals are kept in.
pub open spec fn totals_fit(cs: Seq<ChildOutcome>) -> bool {
    forall|i: int| #![trigger cs.take(i)] 0 <= i <= cs.len() ==> {
        &&& i32::MIN <= frames_sum(cs.take(i)) <= i32::MAX
        &&& i64::MIN <= mvs_sum(cs.take(i)) <= i64::MAX
        &&& i64::MIN <= rss_sum(cs.take(i)) <= i64::MAX
    }
}

/// Totals over the processes of one benchmark run.
pub struct StreamTotals {
    pub frames: i32,
    pub motion_vectors: i64,
    pub memory_total_kb: i64,
    pub memory_peak_kb: i64,
}

/// Adds up the frames, motion vectors and memory of the processes of one
/// run, and finds the largest memory of a single process.
pub fn stream_totals(children: &Vec<ChildOutcome>) -> (t: StreamTotals)
    requires
        totals_fit(children@),
    ensures
        t.frames == frames_sum(children@),
        t.motion_vectors == mvs_sum(children@),
        t.memory_total_kb == rss_sum(children@),
        t.memory_peak_kb == rss_peak(children@),
        forall|i: int| 0 <= i < children@.len() ==> outcome_rss(#[trigger] children@[i]) <= t.memory_peak_kb,
        t.memory_peak_kb == 0 || exists|i: int| 0 <= i < children@.len() && t.memory_peak_kb == outcome_rss(#[trigger] children@[i]),
{
    let mut frames: i32 = 0;
    let mut mvs: i64 = 0;
    let mut total: i64 = 0;
    let mut peak: i64 = 0;
    let mut i: usize = 0;
    while i < children.len()
        invariant
            i <= children.len(),
            totals_fit(children@),
            frames == frames_sum(children@.take(i as int)),
            mvs == mvs_sum(children@.take(i as int)),
            total == rss_sum(children@.take(i as int)),
            peak == rss_peak(children@.take(i as int)),
        decreases children.len() - i,
    {
        let ghost cs = children@;
        assert(cs.take(i as int + 1).drop_last() =~= cs.take(i as int));
        assert(cs.take(i as int + 1).last() == cs[i as int]);
        let c = &children[i];
        let rss: i64 = match c.0 {
            Some(r) => match r.2 {
                Some(kb) => if kb > 0 { kb } else { c.1 },
                None => c.1,
            },
            None => c.1,
        };
        match c.0 {
            Some(r) => {
                frames = frames + r.0;
                mvs = mvs + r.1;
            },
            None => {},
        }
        total = total + rss;
        if rss > peak {
            peak = rss;
        }
        i = i + 1;
    }
    assert(children@.take(children@.len() as int) =~= children@);
    proof {
        lemma_peak_is_largest(children@);
    }
    StreamTotals { frames, motion_vectors: mvs, memory_total_kb: total, memory_peak_kb: peak }
}

/// Frames each stream decoded, when the streams and the frames are both
/// positive, and 0 otherwise.
pub fn frames_per_stream(total_frames: i32, stream_count: i32) -> (n: i32)
    ensures
        stream_count > 0 && total_frames > 0 ==> n == total_frames as int / stream_count as int,
        !(stream_count > 0 && total_frames > 0) ==> n == 0,
{
    if stream_count > 0 && total_frames > 0 {
        total_frames / stream_count
    } else {
        0
    }
}


/// The run description shown on the slides.
pub open spec fn run_info(keyframes_only: bool, thread_count: i32) -> Seq<char> {
    "Keyframes only: "@ + (if keyframes_only { "yes"@ } else { "no"@ }) + " | Threads: "@
        + (if thread_count == 0 { "auto"@ } else { int_text(thread_count as int) })
}

/// A path with its backslashes turned into forward slashes, so that it can
/// stand in a Python string literal.
pub open spec fn forward_slashes(p: Seq<char>) -> Seq<char> {
    replace_char(p, '\\', "/"@)
}

/// The Python program that turns the benchmark CSV into slides.
pub open spec fn slides_code(
    project: Seq<char>,
    csv: Seq<char>,
    config: Seq<char>,
    plots: Seq<char>,
    video_type: Seq<char>,
    info: Seq<char>,
) -> Seq<char> {
    "import sys; sys.path.insert(0, '"@ + forward_slashes(project + "/scripts"@)
        + "'); import pandas as pd; import slides as s; df = pd.read_csv('"@ + forward_slashes(csv)
        + "'); s.produce_slides(df, '"@ + forward_slashes(config) + "', 'benchmark_comparison_slides.pptx', '"@
        + forward_slashes(plots) + "', '"@ + video_type + "', '"@ + info + "')"@
}

/// How the slides are made from a benchmark sweep.
pub struct SlidesCommand {
    /// Where the sweep's CSV is written and read back.
    pub csv_path: String,
    /// The Python interpreter of the project's virtual environment.
    pub python: String,
    /// The program it runs (`python -c`).
    pub code: String,
}

fn forward_slashes_exec(p: &str) -> (res: String)
    ensures
        res@ == forward_slashes(p@),
{
    string_from_chars(&replace_char_exec(&chars_of(p), '\\', &chars_of("/")))
}

/// The slide generation step of a benchmark sweep: the sweep's CSV is
/// `<plots>/benchmark_results.csv` and the slides are produced by the
/// project's `scripts/slides.py` through the virtual environment's Python.
pub fn slides_command(
    project: &str,
    plots_folder: &str,
    slides_config: &str,
    video_type: &str,
    keyframes_only: bool,
    thread_count: i32,
) -> (res: SlidesCommand)
    ensures
        res.csv_path@ == plots_folder@ + "/benchmark_results.csv"@,
        res.python@ == project@ + "/../venv-motion-vectors/bin/python3"@,
        res.code@ == slides_code(project@, res.csv_path@, slides_config@, plots_folder@, video_type@,
            run_info(keyframes_only, thread_count)),
{
    let mut csv_path = plots_folder.to_owned();
    csv_path.append("/benchmark_results.csv");
    let mut python = project.to_owned();
    python.append("/../venv-motion-vectors/bin/python3");
    let mut info = "Keyframes only: ".to_owned();
    info.append(if keyframes_only { "yes" } else { "no" });
    info.append(" | Threads: ");
    if thread_count == 0 {
        info.append("auto");
    } else {
        info.append(decimal_text(thread_count as i128).as_str());
    }
    let mut scripts = project.to_owned();
    scripts.append("/scripts");
    let mut code = "import sys; sys.path.insert(0, '".to_owned();
    code.append(forward_slashes_exec(scripts.as_str()).as_str());
    code.append("'); import pandas as pd; import slides as s; df = pd.read_csv('");
    code.append(forward_slashes_exec(csv_path.as_str()).as_str());
    code.append("'); s.produce_slides(df, '");
    code.append(forward_slashes_exec(slides_config).as_str());
    code.append("', 'benchmark_comparison_slides.pptx', '");
    code.append(forward_slashes_exec(plots_folder).as_str());
    code.append("', '");
    code.append(video_type);
    code.append("', '");
    code.append(info.as_str());
    code.append("')");
    proof {
        assert(info@ =~= run_info(keyframes_only, thread_count));
        assert(scripts@ =~= project@ + "/scripts"@);
        assert(code@ =~= slides_code(project@, csv_path@, slides_config@, plots_folder@, video_type@, info@));
        assert(csv_path@ =~= plots_folder@ + "/benchmark_results.csv"@);
        assert(python@ =~= project@ + "/../venv-motion-vectors/bin/python3"@);
    }
    SlidesCommand { csv_path, python, code }
}

} // verus!
