//! Flame graphs of a profiled extractor: the stacks that `perf script`
//! printed, folded and drawn with the `inferno` crate.

use vstd::prelude::*;
use vstd::slice::slice_subrange;

verus! {

/// An I/O error, as std represents it.
#[verifier::external_type_specification]
#[verifier::external_body]
pub struct ExIoError(std::io::Error);

/// End of the line of `b` that starts at `i`: the position of the next
/// newline byte, or the end of `b`.
pub open spec fn line_end(b: Seq<u8>, i: int) -> int
    decreases b.len() - i,
{
    if i >= b.len() || b[i] == 10 {
        i
    } else {
        line_end(b, i + 1)
    }
}

pub proof fn lemma_line_end(b: Seq<u8>, i: int)
    requires
        0 <= i,
    ensures
        i <= line_end(b, i),
        i <= b.len() ==> line_end(b, i) <= b.len(),
        line_end(b, i) < b.len() ==> b[line_end(b, i)] == 10,
        forall|k: int| i <= k < line_end(b, i) ==> b[k] != 10,
    decreases b.len() - i,
{
    if !(i >= b.len() || b[i] == 10) {
        lemma_line_end(b, i + 1);
    }
}

/// The line of `b` that starts at `i`, without its newline.
pub open spec fn line_at(b: Seq<u8>, i: int) -> Seq<u8> {
    b.subrange(i, line_end(b, i))
}

/// A comment line of `perf script` output: it starts with `#`.
pub open spec fn is_comment(l: Seq<u8>) -> bool {
    l.len() > 0 && l[0] == 35
}

/// The line holds a visible ASCII character, so it is not empty once
/// trailing whitespace is trimmed.
pub open spec fn visible_line(l: Seq<u8>) -> bool {
    exists|k: int| 0 <= k < l.len() && 33 <= #[trigger] l[k] <= 126
}

/// An ASCII digit or `/`.
pub open spec fn is_id_byte(c: u8) -> bool {
    (48 <= c <= 57) || c == 47
}

/// Spaces at `p` and `q` around a non-empty word of ASCII digits and
/// slashes: the process and thread ids by which inferno's perf folder tells
/// an event line.
pub open spec fn event_word(l: Seq<u8>, p: int, q: int) -> bool {
    &&& 0 <= p && p + 1 < q < l.len()
    &&& l[p] == 32
    &&& l[q] == 32
    &&& forall|k: int| p < k < q ==> is_id_byte(#[trigger] l[k])
}

/// The line reads as an event line.
pub open spec fn has_event_word(l: Seq<u8>) -> bool {
    exists|p: int, q: int| #[trigger] event_word(l, p, q)
}

/// The line reads as an event line that names its event: a `:` follows the
/// ids.
pub open spec fn names_event(l: Seq<u8>) -> bool {
    exists|p: int, q: int, r: int| #![trigger event_word(l, p, q), l[r]] event_word(l, p, q) && q < r < l.len() && l[r] == 58
}

/// Every line of `b` from the one at `i` on is a comment or visible.
pub open spec fn lines_visible_from(b: Seq<u8>, i: int) -> bool
    decreases b.len() + 1 - i,
    via lines_from_decreases
{
    if i < 0 || i >= b.len() {
        true
    } else {
        let l = line_at(b, i);
        (is_comment(l) || visible_line(l)) && lines_visible_from(b, line_end(b, i) + 1)
    }
}

/// Reading the lines of `b` from the one at `i` on, as inferno's perf
/// folder reads its first stack, comments skipped: an event line that names
/// its event comes before any line that may be empty, and before any event
/// line that does not name one.
pub open spec fn event_named_from(b: Seq<u8>, i: int) -> bool
    decreases b.len() + 1 - i,
    via named_from_decreases
{
    if i < 0 || i >= b.len() {
        false
    } else {
        let l = line_at(b, i);
        if is_comment(l) {
            event_named_from(b, line_end(b, i) + 1)
        } else if !visible_line(l) {
            false
        } else if names_event(l) {
            true
        } else if has_event_word(l) {
            false
        } else {
            event_named_from(b, line_end(b, i) + 1)
        }
    }
}

#[via_fn]
proof fn lines_from_decreases(b: Seq<u8>, i: int) {
    if 0 <= i < b.len() {
        lemma_line_end(b, i);
    }
}

#[via_fn]
proof fn named_from_decreases(b: Seq<u8>, i: int) {
    if 0 <= i < b.len() {
        lemma_line_end(b, i);
    }
}

/// `perf script` output that inferno's perf folder, with its default
/// options, reads without failing its check that the first stack names the
/// event to keep. That check fails where the first stack ends at an empty
/// line before an event line named an event; it cannot fail where every
/// non-comment line is visible or where such an event line comes first.
/// (A line without a visible ASCII character counts here as one that may be
/// empty.)
pub open spec fn perf_script_foldable(b: Seq<u8>) -> bool {
    lines_visible_from(b, 0) || event_named_from(b, 0)
}

fn next_line_end(b: &Vec<u8>, i: usize) -> (e: usize)
    requires
        i <= b@.len(),
    ensures
        e as int == line_end(b@, i as int),
{
    let mut j = i;
    while j < b.len() && b[j] != 10
        invariant
            i <= j <= b@.len(),
            line_end(b@, j as int) == line_end(b@, i as int),
        decreases b@.len() - j,
    {
        j += 1;
    }
    j
}

fn has_visible_byte(l: &[u8]) -> (res: bool)
    ensures
        res == visible_line(l@),
{
    let mut k: usize = 0;
    while k < l.len()
        invariant
            k <= l@.len(),
            forall|j: int| 0 <= j < k ==> !(33 <= #[trigger] l@[j] <= 126),
        decreases l@.len() - k,
    {
        if 33 <= l[k] && l[k] <= 126 {
            return true;
        }
        k += 1;
    }
    false
}

/// The end of the first event word of the line, where inferno's perf
/// folder ends the ids of an event line.
fn first_event_word_end(l: &[u8]) -> (res: Option<(usize, usize)>)
    ensures
        match res {
            Some((p, q)) => event_word(l@, p as int, q as int)
                && forall|p2: int, q2: int| #[trigger] event_word(l@, p2, q2) ==> q <= q2,
            None => !has_event_word(l@),
        },
{
    let mut idx: usize = 0;
    let mut seen_space = false;
    let mut all_ids = false;
    let mut last_was_space = false;
    let mut sp: usize = 0;
    let ghost mut last_sp: int = -1;
    while idx < l.len()
        invariant
            idx <= l@.len(),
            seen_space == (last_sp >= 0),
            seen_space ==> sp == last_sp,
            seen_space ==> last_sp < idx && l@[last_sp] == 32,
            !seen_space ==> last_sp == -1,
            forall|k: int| last_sp < k < idx ==> #[trigger] l@[k] != 32,
            all_ids == (seen_space && forall|k: int| last_sp < k < idx ==> is_id_byte(#[trigger] l@[k])),
            last_was_space == (idx > 0 && l@[idx - 1] == 32),
            forall|p: int, q: int| #[trigger] event_word(l@, p, q) ==> q >= idx,
        decreases l@.len() - idx,
    {
        let c = l[idx];
        if c == 32 {
            if all_ids && !last_was_space {
                proof {
                    assert(event_word(l@, last_sp, idx as int));
                }
                return Some((sp, idx));
            }
            proof {
                assert forall|p: int, q: int| #[trigger] event_word(l@, p, q) implies q >= idx + 1 by {
                    if q == idx {
                        if p > last_sp {
                            assert(l@[p] != 32);
                        } else if p < last_sp {
                            assert(is_id_byte(l@[last_sp]));
                        } else {
                            assert(l@[idx - 1] != 32);
                        }
                    }
                }
            }
            seen_space = true;
            all_ids = true;
            sp = idx;
            proof {
                last_sp = idx as int;
            }
        } else {
            if !((48 <= c && c <= 57) || c == 47) {
                all_ids = false;
            }
        }
        last_was_space = c == 32;
        idx += 1;
    }
    proof {
        assert forall|p: int, q: int| !event_word(l@, p, q) by {
            if event_word(l@, p, q) {
                assert(q >= idx);
            }
        }
    }
    None
}

fn names_event_exec(l: &[u8]) -> (res: bool)
    ensures
        res == names_event(l@),
{
    let n = l.len();
    let first = first_event_word_end(l);
    match first {
        None => {
            proof {
                assert forall|p: int, q: int, r: int| !(event_word(l@, p, q) && q < r < l@.len() && l@[r] == 58) by {
                    if event_word(l@, p, q) {
                        assert(has_event_word(l@));
                    }
                }
            }
            false
        },
        Some((p, q)) => {
            let mut r = q + 1;
            while r < l.len()
                invariant
                    q < r <= l@.len(),
                    event_word(l@, p as int, q as int),
                    forall|j: int| q < j < r ==> #[trigger] l@[j] != 58,
                decreases l@.len() - r,
            {
                if l[r] == 58 {
                    proof {
                        assert(event_word(l@, p as int, q as int) && l@[r as int] == 58);
                    }
                    return true;
                }
                r += 1;
            }
            proof {
                assert forall|p2: int, q2: int, r2: int| !(event_word(l@, p2, q2) && q2 < r2 < l@.len() && l@[r2] == 58) by {
                    if event_word(l@, p2, q2) && q2 < r2 < l@.len() && l@[r2] == 58 {
                        assert(q <= q2);
                        assert(l@[r2] != 58);
                    }
                }
            }
            false
        },
    }
}

/// Whether inferno's perf folder reads `script` without failing its check
/// on the first stack (see `perf_script_foldable`).
pub fn perf_script_is_foldable(script: &Vec<u8>) -> (res: bool)
    ensures
        res == perf_script_foldable(script@),
{
    let ghost b = script@;
    let mut i: usize = 0;
    let mut visible = true;
    let mut looking = true;
    let mut found = false;
    while i < script.len()
        invariant
            b == script@,
            i <= b.len(),
            lines_visible_from(b, 0) == (visible && lines_visible_from(b, i as int)),
            event_named_from(b, 0) == if looking { event_named_from(b, i as int) } else { found },
            looking ==> !found,
        decreases b.len() - i,
    {
        let e = next_line_end(script, i);
        proof {
            lemma_line_end(b, i as int);
        }
        let l = slice_subrange(script.as_slice(), i, e);
        assert(l@ == line_at(b, i as int));
        let ghost line = l@;
        let ghost next = line_end(b, i as int) + 1;
        assert(lines_visible_from(b, i as int) == ((is_comment(line) || visible_line(line)) && lines_visible_from(b, next)));
        let comment = e > i && script[i] == 35;
        if !comment {
            let vis = has_visible_byte(l);
            if !vis {
                visible = false;
                if looking {
                    looking = false;
                    found = false;
                }
            } else if looking {
                if names_event_exec(l) {
                    looking = false;
                    found = true;
                } else {
                    match first_event_word_end(l) {
                        Some(_) => {
                            looking = false;
                            found = false;
                        },
                        None => {},
                    }
                }
            }
        }
        if e < script.len() {
            i = e + 1;
        } else {
            i = script.len();
            assert(lines_visible_from(b, next) && lines_visible_from(b, i as int));
            assert(!event_named_from(b, next) && !event_named_from(b, i as int));
        }
    }
    visible || found
}

/// The folded stack lines (`frame;frame;... count`, sorted) of a
/// `perf script` output, as inferno's perf collapser with its default
/// options writes them; `None` where it fails on the input.
pub uninterp spec fn folded_stacks(script: Seq<u8>) -> Option<Seq<u8>>;

/// Folds the stacks of a `perf script` output.
///
/// Trusted: runs `inferno::collapse::Collapse::collapse` of a default
/// `inferno::collapse::perf::Folder` from the bytes into a buffer. Claimed:
/// the outcome, the folded text or a failure, is the same for the same
/// input (the collapser sorts what it writes).
#[verifier::external_body]
fn collapse_perf_script(script: &[u8]) -> (res: Result<Vec<u8>, std::io::Error>)
    requires
        perf_script_foldable(script@),
    ensures
        match res {
            Ok(v) => folded_stacks(script@) == Some(v@),
            Err(_) => folded_stacks(script@) is None,
        },
{
    let mut folder = inferno::collapse::perf::Folder::from(inferno::collapse::perf::Options::default());
    let mut folded = Vec::new();
    match inferno::collapse::Collapse::collapse(&mut folder, script, &mut folded) {
        Ok(()) => Ok(folded),
        Err(e) => Err(e),
    }
}

/// `svg` is a flame graph that inferno may draw, with its default options
/// but the title `title`, of the folded stacks `folded`. It is a relation,
/// not a function: inferno picks the colours at random.
pub uninterp spec fn flamegraph_of(folded: Seq<u8>, title: Seq<char>, svg: Seq<u8>) -> bool;

/// Whether inferno, with its default options, refuses to draw the folded
/// stacks `folded`: they are not UTF-8, or their stack-count lines add up to
/// no samples. It depends on the folded text alone.
pub uninterp spec fn draw_fails(folded: Seq<u8>) -> bool;

/// A title of printable ASCII characters without `&`, `<`, `>`, `'` or
/// `"`: XML text that its writer copies unescaped.
pub open spec fn plain_title(t: Seq<char>) -> bool {
    forall|i: int| 0 <= i < t.len() ==> {
        let c = #[trigger] t[i];
        &&& ' ' <= c <= '~'
        &&& c != '&' && c != '<' && c != '>' && c != '\'' && c != '"'
    }
}

/// The bytes of an ASCII text.
pub open spec fn ascii_bytes(t: Seq<char>) -> Seq<u8> {
    t.map_values(|c: char| c as u8)
}

/// `s` holds the bytes `r` one after another somewhere.
pub open spec fn contains_bytes(s: Seq<u8>, r: Seq<u8>) -> bool {
    exists|i: int| 0 <= i && i + r.len() <= s.len() && #[trigger] s.subrange(i, i + r.len()) == r
}

/// Draws folded stacks as an SVG flame graph.
///
/// Trusted: runs `inferno::flamegraph::from_reader` with default options
/// but the title. Claimed: drawing fails exactly where inferno refuses the
/// folded text (`draw_fails`: it is not UTF-8, or finds no samples); a
/// picture that comes back is one drawn of these folded stacks with this
/// title (`flamegraph_of`), and holds the title as the text of its title
/// element, unescaped when it is plain ASCII. Nothing more is claimed of
/// its content, whose colours are chosen at random.
#[verifier::external_body]
fn flamegraph_svg(folded: &[u8], title: &str) -> (res: Result<Vec<u8>, std::io::Error>)
    ensures
        res is Err <==> draw_fails(folded@),
        res matches Ok(s) ==> flamegraph_of(folded@, title@, s@),
        res matches Ok(s) ==> (plain_title(title@) ==> contains_bytes(s@, ascii_bytes(title@))),
{
    let mut opts = inferno::flamegraph::Options::default();
    opts.title = title.to_string();
    let mut svg = Vec::new();
    match inferno::flamegraph::from_reader(&mut opts, folded, &mut svg) {
        Ok(()) => Ok(svg),
        Err(e) => Err(e),
    }
}

/// Which step of making a flame graph failed, with the cause.
#[derive(Debug)]
pub enum FlamegraphError {
    /// Folding the stacks failed.
    Collapse(std::io::Error),
    /// Drawing the folded stacks failed.
    Draw(std::io::Error),
}

/// The SVG flame graph, titled `title`, of the stacks in a `perf script`
/// output: the stacks are folded, then the folded stacks are drawn under
/// `title`. It fails at the folding exactly where the collapser fails on
/// the output, and at the drawing exactly where inferno refuses the folded
/// stacks; otherwise it gives a picture drawn of them, which holds a plain
/// ASCII title verbatim.
pub fn flamegraph_from_script(script: &Vec<u8>, title: &str) -> (res: Result<Vec<u8>, FlamegraphError>)
    requires
        perf_script_foldable(script@),
    ensures
        (res matches Err(FlamegraphError::Collapse(_))) <==> folded_stacks(script@) is None,
        (res matches Err(FlamegraphError::Draw(_))) <==> (folded_stacks(script@) matches Some(f) && draw_fails(f)),
        res matches Ok(s) ==> (exists|f: Seq<u8>| folded_stacks(script@) == Some(f) && #[trigger] flamegraph_of(f, title@, s@)),
        res matches Ok(s) ==> (plain_title(title@) ==> contains_bytes(s@, ascii_bytes(title@))),
{
    let folded = match collapse_perf_script(script.as_slice()) {
        Ok(f) => f,
        Err(e) => return Err(FlamegraphError::Collapse(e)),
    };
    match flamegraph_svg(folded.as_slice(), title) {
        Ok(svg) => {
            let drawn: Result<Vec<u8>, FlamegraphError> = Ok(svg);
            proof {
                assert(flamegraph_of(folded@, title@, drawn->Ok_0@));
                assert(plain_title(title@) ==> contains_bytes(drawn->Ok_0@, ascii_bytes(title@)));
            }
            drawn
        },
        Err(e) => Err(FlamegraphError::Draw(e)),
    }
}

} // verus!
