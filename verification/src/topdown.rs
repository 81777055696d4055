//! The call tree of a VTune top-down report.
//!
//! The report is tab-separated; its `Function Stack` column indents each
//! function by its depth in the call stack. A function's parent is the
//! closest earlier function indented less, unless a function in between is
//! indented no more than that one.

use vstd::prelude::*;
use crate::text::{chars_of, string_from_chars, int_text, decimal_text};
use crate::scan::{TrimSet, trim, trim_chars, lines, pieces, views, split_lines, split_by, replace_char, replace_char_exec, replacer};
use vstd::string::*;

verus! {

broadcast use vstd::seq_lib::group_seq_lib_default;

/// Why a top-down report cannot be read.
#[derive(Debug, Clone, Copy, PartialEq, Eq, Structural)]
pub enum TopdownError {
    Empty,
    MissingFunctionStack,
    MissingCpuTotal,
    MissingCpuSelf,
}

impl TopdownError {
    /// The message reported for this error.
    pub fn message(&self) -> (res: &'static str)
        ensures
            res@ == match *self {
                TopdownError::Empty => "Empty CSV file"@,
                TopdownError::MissingFunctionStack => "Missing 'Function Stack' column"@,
                TopdownError::MissingCpuTotal => "Missing 'CPU Time:Total' column"@,
                TopdownError::MissingCpuSelf => "Missing 'CPU Time:Self' column"@,
            },
    {
        match self {
            TopdownError::Empty => "Empty CSV file",
            TopdownError::MissingFunctionStack => "Missing 'Function Stack' column",
            TopdownError::MissingCpuTotal => "Missing 'CPU Time:Total' column",
            TopdownError::MissingCpuSelf => "Missing 'CPU Time:Self' column",
        }
    }
}

/// Number of spaces `s` starts with.
pub open spec fn leading_spaces(s: Seq<char>) -> nat
    decreases s.len(),
{
    if s.len() > 0 && s[0] == ' ' {
        1 + leading_spaces(s.drop_first())
    } else {
        0
    }
}

/// The field at column `c` of a tab-separated line, if the line reaches it.
pub open spec fn field_at(line: Seq<char>, c: Option<int>) -> Option<Seq<char>> {
    match c {
        Some(p) => if p < pieces(line, '\t').len() {
            Some(pieces(line, '\t')[p])
        } else {
            None
        },
        None => None,
    }
}

/// A function of the report: the index of its line among the lines after
/// the header, its indentation, its name, and the text of its total and
/// self CPU time fields.
pub type RowSpec = (int, nat, Seq<char>, Option<Seq<char>>, Option<Seq<char>>);

/// The function a report line describes; blank lines describe none.
pub open spec fn row_of(cols: (Option<int>, Option<int>, Option<int>)) -> spec_fn((int, Seq<char>)) -> Option<RowSpec> {
    |x: (int, Seq<char>)| {
        let line = x.1;
        if trim(line, TrimSet::Whitespace).len() == 0 {
            None
        } else {
            let f = match field_at(line, cols.0) {
                Some(t) => t,
                None => Seq::<char>::empty(),
            };
            Some((x.0, leading_spaces(f), trim(f, TrimSet::Whitespace), field_at(line, cols.1), field_at(line, cols.2)))
        }
    }
}

/// The lines after the header, each with its index.
pub open spec fn numbered_body(ls: Seq<Seq<char>>) -> Seq<(int, Seq<char>)> {
    Seq::new((ls.len() - 1) as nat, |k: int| (k, ls[k + 1]))
}

/// The columns of the function, total CPU time and self CPU time.
pub open spec fn topdown_columns(header: Seq<char>) -> (Option<int>, Option<int>, Option<int>) {
    let hs = pieces(header, '\t');
    (hs.index_of_first("Function Stack"@), hs.index_of_first("CPU Time:Total"@), hs.index_of_first("CPU Time:Self"@))
}

/// What reading a top-down report gives: its functions in line order, or
/// the first error among an empty report and missing columns (the self time
/// column only when it is needed).
pub open spec fn topdown_rows(content: Seq<char>, need_self: bool) -> Result<Seq<RowSpec>, TopdownError> {
    let ls = lines(content);
    if ls.len() == 0 {
        Err(TopdownError::Empty)
    } else {
        let cols = topdown_columns(ls[0]);
        if cols.0 is None {
            Err(TopdownError::MissingFunctionStack)
        } else if cols.1 is None {
            Err(TopdownError::MissingCpuTotal)
        } else if need_self && cols.2 is None {
            Err(TopdownError::MissingCpuSelf)
        } else {
            Ok(numbered_body(ls).filter_map(row_of(cols)))
        }
    }
}

/// A function of a top-down report.
pub struct TopdownRow {
    pub line: usize,
    pub level: usize,
    pub name: String,
    pub cpu_total: Option<String>,
    pub cpu_self: Option<String>,
}

pub open spec fn opt_view(o: Option<String>) -> Option<Seq<char>> {
    match o {
        Some(s) => Some(s@),
        None => None,
    }
}

pub open spec fn row_view(r: TopdownRow) -> RowSpec {
    (r.line as int, r.level as nat, r.name@, opt_view(r.cpu_total), opt_view(r.cpu_self))
}

pub open spec fn rows_view(rs: Seq<TopdownRow>) -> Seq<RowSpec> {
    rs.map_values(|r: TopdownRow| row_view(r))
}

fn find_header(hs: &Vec<Vec<char>>, name: &str) -> (res: Option<usize>)
    ensures
        match res {
            Some(p) => views(hs@).index_of_first(name@) == Some(p as int) && p < hs@.len(),
            None => views(hs@).index_of_first(name@) is None,
        },
{
    let target = chars_of(name);
    let ghost hv = views(hs@);
    let mut i: usize = 0;
    while i < hs.len()
        invariant
            i <= hs@.len(),
            hv == views(hs@),
            target@ == name@,
            forall|j: int| 0 <= j < i ==> hv[j] != name@,
        decreases hs@.len() - i,
    {
        if crate::scan::chars_equal(&hs[i], &target) {
            proof {
                assert(hv[i as int] == name@);
                hv.index_of_first_ensures(name@);
                assert(hv.contains(name@));
            }
            return Some(i);
        }
        i += 1;
    }
    proof {
        hv.index_of_first_ensures(name@);
        if hv.contains(name@) {
            let k = choose|k: int| 0 <= k < hv.len() && hv[k] == name@;
            assert(hv[k] != name@);
        }
    }
    None
}

fn count_leading_spaces(s: &Vec<char>) -> (n: usize)
    ensures
        n == leading_spaces(s@),
{
    let mut i: usize = 0;
    proof {
        assert(s@.skip(0) =~= s@);
    }
    while i < s.len() && s[i] == ' '
        invariant
            i <= s@.len(),
            leading_spaces(s@) == i + leading_spaces(s@.skip(i as int)),
        decreases s@.len() - i,
    {
        proof {
            assert(s@.skip(i as int)[0] == s@[i as int]);
            assert(s@.skip(i as int).drop_first() =~= s@.skip(i + 1));
        }
        i += 1;
    }
    proof {
        if i < s@.len() {
            assert(s@.skip(i as int)[0] == s@[i as int]);
        } else {
            assert(s@.skip(i as int).len() == 0);
        }
    }
    i
}

fn field_text(fs: &Vec<Vec<char>>, c: Option<usize>, Ghost(line): Ghost<Seq<char>>) -> (res: Option<Vec<char>>)
    requires
        views(fs@) == pieces(line, '\t'),
    ensures
        match res {
            Some(v) => field_at(line, match c { Some(p) => Some(p as int), None => None }) == Some(v@),
            None => field_at(line, match c { Some(p) => Some(p as int), None => None }) is None,
        },
{
    match c {
        Some(p) => if p < fs.len() {
            proof {
                assert(views(fs@)[p as int] == fs@[p as int]@);
            }
            Some(crate::scan::sub_chars(&fs[p], 0, fs[p].len()))
        } else {
            None
        },
        None => None,
    }
}

fn opt_string(v: Option<Vec<char>>) -> (res: Option<String>)
    ensures
        opt_view(res) == match v {
            Some(x) => Some(x@),
            None => None::<Seq<char>>,
        },
{
    match v {
        Some(x) => Some(string_from_chars(&x)),
        None => None,
    }
}

/// Reads the functions of a top-down report (tab-separated, with a header
/// line naming its columns), in line order. `need_self` asks for the self
/// CPU time column to be present too.
pub fn read_topdown(content: &str, need_self: bool) -> (res: Result<Vec<TopdownRow>, TopdownError>)
    ensures
        match res {
            Ok(rows) => topdown_rows(content@, need_self) == Ok::<Seq<RowSpec>, TopdownError>(rows_view(rows@)),
            Err(e) => topdown_rows(content@, need_self) == Err::<Seq<RowSpec>, TopdownError>(e),
        },
{
    let ls = split_lines(&chars_of(content));
    let ghost lv = views(ls@);
    if ls.len() == 0 {
        return Err(TopdownError::Empty);
    }
    let hs = split_by(&ls[0], '\t');
    proof {
        assert(lv[0] == ls@[0]@);
    }
    let func = find_header(&hs, "Function Stack");
    let total = find_header(&hs, "CPU Time:Total");
    let selfc = find_header(&hs, "CPU Time:Self");
    let ghost cols = topdown_columns(lv[0]);
    proof {
        assert(cols.0 == match func { Some(p) => Some(p as int), None => None::<int> });
        assert(cols.1 == match total { Some(p) => Some(p as int), None => None::<int> });
        assert(cols.2 == match selfc { Some(p) => Some(p as int), None => None::<int> });
    }
    if func.is_none() {
        return Err(TopdownError::MissingFunctionStack);
    }
    if total.is_none() {
        return Err(TopdownError::MissingCpuTotal);
    }
    if need_self && selfc.is_none() {
        return Err(TopdownError::MissingCpuSelf);
    }
    let ghost body = numbered_body(lv);
    let mut out: Vec<TopdownRow> = Vec::new();
    let mut i: usize = 1;
    proof {
        assert(body.take(0) =~= Seq::<(int, Seq<char>)>::empty());
        assert(rows_view(out@) =~= body.take(0).filter_map(row_of(cols)));
    }
    while i < ls.len()
        invariant
            1 <= i <= ls@.len(),
            lv == views(ls@),
            body == numbered_body(lv),
            cols.0 == match func { Some(p) => Some(p as int), None => None::<int> },
            cols.1 == match total { Some(p) => Some(p as int), None => None::<int> },
            cols.2 == match selfc { Some(p) => Some(p as int), None => None::<int> },
            rows_view(out@) == body.take(i - 1).filter_map(row_of(cols)),
        decreases ls@.len() - i,
    {
        proof {
            body.lemma_filter_map_take_succ(row_of(cols), i - 1);
            assert(body[i - 1] == (i - 1, ls@[i as int]@));
        }
        let line = &ls[i];
        let ghost before = out@;
        let t = trim_chars(line, &TrimSet::Whitespace);
        if t.len() > 0 {
            let fs = split_by(line, '\t');
            let f = match field_text(&fs, func, Ghost(line@)) {
                Some(v) => v,
                None => Vec::new(),
            };
            let level = count_leading_spaces(&f);
            let name = string_from_chars(&trim_chars(&f, &TrimSet::Whitespace));
            let cpu_total = opt_string(field_text(&fs, total, Ghost(line@)));
            let cpu_self = opt_string(field_text(&fs, selfc, Ghost(line@)));
            let row = TopdownRow { line: i - 1, level, name, cpu_total, cpu_self };
            proof {
                assert(f@ == match field_at(line@, cols.0) {
                    Some(t) => t,
                    None => Seq::<char>::empty(),
                });
                assert(row_of(cols)(body[i - 1]) == Some(row_view(row)));
            }
            out.push(row);
            proof {
                assert(rows_view(out@) =~= rows_view(before).push(row_view(row)));
            }
        }
        proof {
            assert(rows_view(out@) =~= body.take(i as int).filter_map(row_of(cols)));
        }
        i += 1;
    }
    proof {
        assert(body.take(i - 1) =~= body);
    }
    Ok(out)
}

/// Every function strictly between `j` and `k` is indented more than `j`.
pub open spec fn survives(lv: Seq<nat>, j: int, k: int) -> bool {
    forall|i: int| j < i < k ==> lv[i] > lv[j]
}

/// Function `j` could hold function `k`: it comes earlier, is indented
/// less, and no function in between is indented as little as it.
pub open spec fn parent_candidate(lv: Seq<nat>, j: int, k: int) -> bool {
    0 <= j < k && lv[j] < lv[k] && survives(lv, j, k)
}

/// The parent of function `k`: the last of its candidates, or none.
pub open spec fn parent_ok(lv: Seq<nat>, p: Option<usize>, k: int) -> bool {
    match p {
        Some(q) => parent_candidate(lv, q as int, k) && forall|r: int| q < r < k ==> !#[trigger] parent_candidate(lv, r, k),
        None => forall|j: int| !#[trigger] parent_candidate(lv, j, k),
    }
}

/// The children of `j` in order: the functions whose parent it is.
pub open spec fn kids(pv: Seq<Option<usize>>, j: usize) -> Seq<usize>
    decreases pv.len(),
{
    if pv.len() == 0 {
        seq![]
    } else {
        let r = kids(pv.drop_last(), j);
        if pv.last() == Some(j) {
            r.push((pv.len() - 1) as usize)
        } else {
            r
        }
    }
}

/// The functions without parent, in order.
pub open spec fn roots_of(pv: Seq<Option<usize>>) -> Seq<usize>
    decreases pv.len(),
{
    if pv.len() == 0 {
        seq![]
    } else {
        let r = roots_of(pv.drop_last());
        if pv.last() is None {
            r.push((pv.len() - 1) as usize)
        } else {
            r
        }
    }
}

pub open spec fn levels(rows: Seq<TopdownRow>) -> Seq<nat> {
    rows.map_values(|r: TopdownRow| r.level as nat)
}

/// The call tree over the functions of a report, by position: each
/// function's parent, children and the functions without parent.
pub struct CallTree {
    pub parent: Vec<Option<usize>>,
    pub children: Vec<Vec<usize>>,
    pub roots: Vec<usize>,
}

/// Whether `t` is the call tree of functions indented by `lv`.
pub open spec fn is_call_tree(lv: Seq<nat>, t: CallTree) -> bool {
    &&& t.parent@.len() == lv.len()
    &&& t.children@.len() == lv.len()
    &&& forall|k: int| 0 <= k < lv.len() ==> parent_ok(lv, #[trigger] t.parent@[k], k)
    &&& forall|j: int| 0 <= j < lv.len() ==> (#[trigger] t.children@[j])@ == kids(t.parent@, j as usize)
    &&& t.roots@ == roots_of(t.parent@)
}

proof fn lemma_kids_push(pv: Seq<Option<usize>>, x: Option<usize>, j: usize)
    ensures
        kids(pv.push(x), j) == if x == Some(j) { kids(pv, j).push(pv.len() as usize) } else { kids(pv, j) },
        roots_of(pv.push(x)) == if x is None { roots_of(pv).push(pv.len() as usize) } else { roots_of(pv) },
{
    assert(pv.push(x).drop_last() =~= pv);
}

/// Builds the call tree of a report's functions from their indentation: a
/// function's parent is the last earlier function indented less with no
/// function in between indented as little as it.
pub fn build_call_tree(rows: &Vec<TopdownRow>) -> (t: CallTree)
    ensures
        is_call_tree(levels(rows@), t),
{
    let ghost lv = levels(rows@);
    let n = rows.len();
    let mut parent: Vec<Option<usize>> = Vec::new();
    let mut children: Vec<Vec<usize>> = Vec::new();
    let mut roots: Vec<usize> = Vec::new();
    let mut stack: Vec<usize> = Vec::new();
    let mut k: usize = 0;
    while k < n
        invariant
            n == rows@.len(),
            lv == levels(rows@),
            k <= n,
            parent@.len() == k,
            children@.len() == k,
            forall|i: int| 0 <= i < k ==> parent_ok(lv, #[trigger] parent@[i], i),
            forall|j: int| 0 <= j < k ==> (#[trigger] children@[j])@ == kids(parent@, j as usize),
            roots@ == roots_of(parent@),
            forall|a: int, b: int| 0 <= a < b < stack@.len() ==> (#[trigger] stack@[a]) < (#[trigger] stack@[b]),
            forall|a: int| 0 <= a < stack@.len() ==> (#[trigger] stack@[a]) < k && survives(lv, stack@[a] as int, k as int),
            forall|j: int| 0 <= j < k && #[trigger] survives(lv, j, k as int) ==> exists|a: int| 0 <= a < stack@.len() && (#[trigger] stack@[a]) == j,
        decreases n - k,
    {
        let l = rows[k].level;
        proof {
            assert(lv[k as int] == l);
        }
        let ghost s0 = stack@;
        while stack.len() > 0 && rows[stack[stack.len() - 1]].level >= l
            invariant
                n == rows@.len(),
                lv == levels(rows@),
                k < n,
                lv[k as int] == l,
                stack@.len() <= s0.len(),
                stack@ == s0.take(stack@.len() as int),
                forall|a: int| 0 <= a < s0.len() ==> (#[trigger] s0[a]) < k,
                forall|a: int| stack@.len() <= a < s0.len() ==> lv[(#[trigger] s0[a]) as int] >= l,
            decreases stack@.len(),
        {
            proof {
                let top = stack@.len() - 1;
                assert(stack@[top] == s0[top]);
                assert(lv[s0[top] as int] == rows@[s0[top] as int].level);
            }
            stack.pop();
            proof {
                assert(stack@ =~= s0.take(stack@.len() as int));
            }
        }
        let m = stack.len();
        let p: Option<usize> = if m > 0 {
            Some(stack[m - 1])
        } else {
            None
        };
        proof {
            if m > 0 {
                assert(lv[s0[m - 1] as int] == rows@[s0[m - 1] as int].level);
                assert(stack@[m - 1] == s0[m - 1]);
                assert(lv[s0[m - 1] as int] < l);
            }
            // levels strictly increase along the stack
            assert forall|a: int, b: int| 0 <= a < b < s0.len() implies lv[(#[trigger] s0[a]) as int] < lv[(#[trigger] s0[b]) as int] by {
                assert(survives(lv, s0[a] as int, k as int));
                assert(s0[a] < s0[b]);
            }
            match p {
                Some(q) => {
                    assert(q == s0[m - 1]);
                    assert(parent_candidate(lv, q as int, k as int));
                    assert forall|r: int| q < r < k implies !#[trigger] parent_candidate(lv, r, k as int) by {
                        if parent_candidate(lv, r, k as int) {
                            let a = choose|a: int| 0 <= a < s0.len() && (#[trigger] s0[a]) == r;
                            if a < m {
                                assert(s0[a] <= s0[m - 1]) by {
                                    if a < m - 1 {
                                        assert(s0[a] < s0[m - 1]);
                                    }
                                }
                            } else {
                                assert(lv[s0[a] as int] >= l);
                            }
                        }
                    }
                },
                None => {
                    assert forall|j: int| !#[trigger] parent_candidate(lv, j, k as int) by {
                        if parent_candidate(lv, j, k as int) {
                            let a = choose|a: int| 0 <= a < s0.len() && (#[trigger] s0[a]) == j;
                            assert(lv[s0[a] as int] >= l);
                        }
                    }
                },
            }
        }
        let ghost pv0 = parent@;
        let ghost ch0 = children@;
        parent.push(p);
        children.push(Vec::new());
        match p {
            Some(q) => {
                children[q].push(k);
            },
            None => {
                roots.push(k);
            },
        }
        proof {
            assert forall|j: int| 0 <= j < k + 1 implies (#[trigger] children@[j])@ == kids(parent@, j as usize) by {
                lemma_kids_push(pv0, p, j as usize);
                assert(parent@ == pv0.push(p));
                if j < k {
                    if p == Some(j as usize) {
                        assert(children@[j]@ == ch0[j]@.push(k));
                    } else {
                        assert(children@[j] == ch0[j]);
                    }
                } else {
                    assert(kids(pv0, j as usize) =~= Seq::<usize>::empty()) by {
                        assert forall|i: int| 0 <= i < pv0.len() implies #[trigger] pv0[i] != Some(j as usize) by {
                            assert(parent_ok(lv, pv0[i], i));
                        }
                        lemma_kids_below(pv0, j as usize);
                    }
                    assert(children@[j]@ =~= Seq::<usize>::empty());
                }
            }
            lemma_kids_push(pv0, p, 0);
            assert(parent@ == pv0.push(p));
            assert forall|i: int| 0 <= i < k + 1 implies parent_ok(lv, #[trigger] parent@[i], i) by {
                if i < k {
                    assert(parent@[i] == pv0[i]);
                }
            }
        }
        stack.push(k);
        proof {
            let st = stack@;
            assert(st == s0.take(m as int).push(k));
            assert forall|a: int| 0 <= a < st.len() implies (#[trigger] st[a]) < k + 1 && survives(lv, st[a] as int, k + 1) by {
                if a < m {
                    assert(st[a] == s0[a]);
                    assert(survives(lv, s0[a] as int, k as int));
                    if a < m - 1 {
                        assert(lv[s0[a] as int] < lv[s0[m - 1] as int]) by {
                            assert(survives(lv, s0[a] as int, k as int));
                            assert(s0[a] < s0[m - 1]);
                        }
                    }
                    assert(lv[s0[a] as int] < l);
                }
            }
            assert forall|j: int| 0 <= j < k + 1 && #[trigger] survives(lv, j, k + 1) implies exists|a: int| 0 <= a < st.len() && (#[trigger] st[a]) == j by {
                if j == k {
                    assert(st[m as int] == k);
                } else {
                    assert(survives(lv, j, k as int));
                    let a = choose|a: int| 0 <= a < s0.len() && (#[trigger] s0[a]) == j;
                    assert(lv[k as int] > lv[j]);
                    if a >= m {
                        assert(lv[s0[a] as int] >= l);
                    }
                    assert(st[a] == j);
                }
            }
            assert forall|a: int, b: int| 0 <= a < b < st.len() implies (#[trigger] st[a]) < (#[trigger] st[b]) by {
                if b < m {
                    assert(st[a] == s0[a] && st[b] == s0[b]);
                } else {
                    assert(st[a] == s0[a]);
                }
            }
        }
        k += 1;
    }
    CallTree { parent, children, roots }
}

proof fn lemma_kids_below(pv: Seq<Option<usize>>, j: usize)
    requires
        forall|i: int| 0 <= i < pv.len() ==> #[trigger] pv[i] != Some(j),
    ensures
        kids(pv, j) == Seq::<usize>::empty(),
    decreases pv.len(),
{
    if pv.len() > 0 {
        lemma_kids_below(pv.drop_last(), j);
    }
}

/// A function name made safe for HTML text: `&`, `<`, `>` and `"` written
/// as entities.
pub open spec fn escape_html(s: Seq<char>) -> Seq<char> {
    replace_char(replace_char(replace_char(replace_char(s, '&', "&amp;"@), '<', "&lt;"@), '>', "&gt;"@), '"', "&quot;"@)
}

/// HTML text read back: each of the entities `&amp;`, `&lt;`, `&gt;` and
/// `&quot;` stands for its character, every other character for itself.
pub open spec fn unescape_html(t: Seq<char>) -> Seq<char>
    decreases t.len(),
{
    if t.len() == 0 {
        seq![]
    } else if t.len() >= 5 && t.subrange(0, 5) == "&amp;"@ {
        seq!['&'] + unescape_html(t.subrange(5, t.len() as int))
    } else if t.len() >= 4 && t.subrange(0, 4) == "&lt;"@ {
        seq!['<'] + unescape_html(t.subrange(4, t.len() as int))
    } else if t.len() >= 4 && t.subrange(0, 4) == "&gt;"@ {
        seq!['>'] + unescape_html(t.subrange(4, t.len() as int))
    } else if t.len() >= 6 && t.subrange(0, 6) == "&quot;"@ {
        seq!['"'] + unescape_html(t.subrange(6, t.len() as int))
    } else {
        seq![t[0]] + unescape_html(t.subrange(1, t.len() as int))
    }
}

proof fn lemma_replace_char_concat(x: Seq<char>, y: Seq<char>, c: char, r: Seq<char>)
    ensures
        replace_char(x + y, c, r) == replace_char(x, c, r) + replace_char(y, c, r),
{
    assert((x + y).map_values(replacer(c, r)) =~= x.map_values(replacer(c, r)) + y.map_values(replacer(c, r)));
    vstd::seq_lib::lemma_flatten_concat(x.map_values(replacer(c, r)), y.map_values(replacer(c, r)));
}

proof fn lemma_replace_char_one(ch: char, c: char, r: Seq<char>)
    ensures
        replace_char(seq![ch], c, r) == if ch == c { r } else { seq![ch] },
{
    let m = seq![ch].map_values(replacer(c, r));
    assert(m.drop_first() =~= Seq::<Seq<char>>::empty());
    assert(m.drop_first().flatten() =~= Seq::<char>::empty());
    assert(m.flatten() =~= m[0]);
}

proof fn lemma_replace_char_absent(s: Seq<char>, c: char, r: Seq<char>)
    requires
        !s.contains(c),
    ensures
        replace_char(s, c, r) == s,
    decreases s.len(),
{
    if s.len() > 0 {
        let rest = s.subrange(1, s.len() as int);
        assert(s =~= seq![s[0]] + rest);
        assert(!rest.contains(c)) by {
            if rest.contains(c) {
                let i = choose|i: int| 0 <= i < rest.len() && rest[i] == c;
                assert(s[i + 1] == c);
            }
        }
        lemma_replace_char_absent(rest, c, r);
        lemma_replace_char_concat(seq![s[0]], rest, c, r);
        lemma_replace_char_one(s[0], c, r);
    }
}

/// The text escaping writes for one character.
pub open spec fn escaped_char(ch: char) -> Seq<char> {
    if ch == '&' {
        "&amp;"@
    } else if ch == '<' {
        "&lt;"@
    } else if ch == '>' {
        "&gt;"@
    } else if ch == '"' {
        "&quot;"@
    } else {
        seq![ch]
    }
}

proof fn lemma_replace_four_one(ch: char)
    ensures
        escape_html(seq![ch]) == escaped_char(ch),
{
    reveal_strlit("&amp;");
    reveal_strlit("&lt;");
    reveal_strlit("&gt;");
    reveal_strlit("&quot;");
    let a = replace_char(seq![ch], '&', "&amp;"@);
    lemma_replace_char_one(ch, '&', "&amp;"@);
    if ch == '&' {
        lemma_replace_char_absent(a, '<', "&lt;"@);
        lemma_replace_char_absent(a, '>', "&gt;"@);
        lemma_replace_char_absent(a, '"', "&quot;"@);
    } else {
        let b = replace_char(a, '<', "&lt;"@);
        lemma_replace_char_one(ch, '<', "&lt;"@);
        if ch == '<' {
            lemma_replace_char_absent(b, '>', "&gt;"@);
            lemma_replace_char_absent(b, '"', "&quot;"@);
        } else {
            lemma_replace_char_one(ch, '>', "&gt;"@);
            let d = replace_char(b, '>', "&gt;"@);
            if ch == '>' {
                lemma_replace_char_absent(d, '"', "&quot;"@);
            } else {
                lemma_replace_char_one(ch, '"', "&quot;"@);
            }
        }
    }
}

proof fn lemma_escape_html_concat(x: Seq<char>, y: Seq<char>)
    ensures
        escape_html(x + y) == escape_html(x) + escape_html(y),
{
    lemma_replace_char_concat(x, y, '&', "&amp;"@);
    let x1 = replace_char(x, '&', "&amp;"@);
    let y1 = replace_char(y, '&', "&amp;"@);
    lemma_replace_char_concat(x1, y1, '<', "&lt;"@);
    let x2 = replace_char(x1, '<', "&lt;"@);
    let y2 = replace_char(y1, '<', "&lt;"@);
    lemma_replace_char_concat(x2, y2, '>', "&gt;"@);
    let x3 = replace_char(x2, '>', "&gt;"@);
    let y3 = replace_char(y2, '>', "&gt;"@);
    lemma_replace_char_concat(x3, y3, '"', "&quot;"@);
}

proof fn lemma_unescape_escaped_char(ch: char, u: Seq<char>)
    ensures
        unescape_html(escaped_char(ch) + u) == seq![ch] + unescape_html(u),
{
    reveal_strlit("&amp;");
    reveal_strlit("&lt;");
    reveal_strlit("&gt;");
    reveal_strlit("&quot;");
    let t = escaped_char(ch) + u;
    let n = escaped_char(ch).len() as int;
    assert(t.subrange(n, t.len() as int) =~= u);
    assert(t.subrange(0, n) =~= escaped_char(ch));
    if ch == '&' {
        assert(t.subrange(0, 5) =~= "&amp;"@);
    } else if ch == '<' {
        assert(t.subrange(0, 4) =~= "&lt;"@);
        assert(t.len() >= 5 ==> t.subrange(0, 5) != "&amp;"@) by {
            if t.len() >= 5 {
                assert(t.subrange(0, 5)[1] == 'l');
                assert("&amp;"@[1] == 'a');
            }
        }
    } else if ch == '>' {
        assert(t.subrange(0, 4) =~= "&gt;"@);
        assert(t.len() >= 5 ==> t.subrange(0, 5) != "&amp;"@) by {
            if t.len() >= 5 {
                assert(t.subrange(0, 5)[1] == 'g');
                assert("&amp;"@[1] == 'a');
            }
        }
        assert(t.subrange(0, 4) != "&lt;"@) by {
            assert(t.subrange(0, 4)[1] == 'g');
        }
    } else if ch == '"' {
        assert(t.subrange(0, 6) =~= "&quot;"@);
        assert(t.subrange(0, 5)[1] == 'q');
        assert(t.subrange(0, 4)[1] == 'q');
        assert(t.subrange(0, 5) != "&amp;"@);
        assert(t.subrange(0, 4) != "&lt;"@);
        assert(t.subrange(0, 4) != "&gt;"@);
    } else {
        assert(t[0] == ch);
        if t.len() >= 5 {
            assert(t.subrange(0, 5)[0] == ch);
            assert(t.subrange(0, 5) != "&amp;"@);
        }
        if t.len() >= 4 {
            assert(t.subrange(0, 4)[0] == ch);
            assert(t.subrange(0, 4) != "&lt;"@);
            assert(t.subrange(0, 4) != "&gt;"@);
        }
        if t.len() >= 6 {
            assert(t.subrange(0, 6)[0] == ch);
            assert(t.subrange(0, 6) != "&quot;"@);
        }
    }
}

/// Escaping for HTML text: what it writes holds no `<`, `>` or `"` (so it
/// cannot open a tag or close an attribute), reads back to the name it
/// escaped, and leaves a name without `&`, `<`, `>` or `"` as it is.
pub proof fn lemma_escape_html(s: Seq<char>)
    ensures
        forall|i: int| 0 <= i < escape_html(s).len() ==> {
            let c = #[trigger] escape_html(s)[i];
            c != '<' && c != '>' && c != '"'
        },
        unescape_html(escape_html(s)) == s,
        (!s.contains('&') && !s.contains('<') && !s.contains('>') && !s.contains('"')) ==> escape_html(s) == s,
    decreases s.len(),
{
    reveal_strlit("&amp;");
    reveal_strlit("&lt;");
    reveal_strlit("&gt;");
    reveal_strlit("&quot;");
    if s.len() == 0 {
        assert(escape_html(s) =~= s) by {
            lemma_replace_char_absent(s, '&', "&amp;"@);
            lemma_replace_char_absent(s, '<', "&lt;"@);
            lemma_replace_char_absent(s, '>', "&gt;"@);
            lemma_replace_char_absent(s, '"', "&quot;"@);
        }
    } else {
        let ch = s[0];
        let rest = s.subrange(1, s.len() as int);
        assert(s =~= seq![ch] + rest);
        lemma_escape_html(rest);
        lemma_escape_html_concat(seq![ch], rest);
        lemma_replace_four_one(ch);
        let e = escaped_char(ch);
        let er = escape_html(rest);
        assert(escape_html(s) == e + er);
        assert forall|i: int| 0 <= i < escape_html(s).len() implies {
            let c = #[trigger] escape_html(s)[i];
            c != '<' && c != '>' && c != '"'
        } by {
            if i < e.len() {
                assert(escape_html(s)[i] == e[i]);
            } else {
                assert(escape_html(s)[i] == er[i - e.len()]);
            }
        }
        lemma_unescape_escaped_char(ch, er);
        assert(seq![ch] + rest =~= s);
        if !s.contains('&') && !s.contains('<') && !s.contains('>') && !s.contains('"') {
            assert(!rest.contains('&') && !rest.contains('<') && !rest.contains('>') && !rest.contains('"')) by {
                if rest.contains('&') || rest.contains('<') || rest.contains('>') || rest.contains('"') {
                    let i = choose|i: int| 0 <= i < rest.len() && (rest[i] == '&' || rest[i] == '<' || rest[i] == '>' || rest[i] == '"');
                    assert(s[i + 1] == rest[i]);
                }
            }
            assert(s[0] == ch);
            assert(e =~= seq![ch]);
        }
    }
}

/// The element id of the function on line `line`.
pub open spec fn node_id(line: int) -> Seq<char> {
    "node_"@ + int_text(line)
}

/// What the HTML of a call tree is made from: each function's line index,
/// name and children, and the text shown for its total and self CPU time.
pub struct TreeText {
    pub lines: Seq<int>,
    pub names: Seq<Seq<char>>,
    pub children: Seq<Seq<usize>>,
    pub totals: Seq<Seq<char>>,
    pub selfs: Seq<Seq<char>>,
}

/// The opening of a function's list item, up to its children.
pub open spec fn head_text(id: Seq<char>, has_children: bool, name: Seq<char>, total: Seq<char>, selft: Seq<char>) -> Seq<char> {
    "<li class=\"tree-node "@ + (if has_children { "collapsed"@ } else { Seq::<char>::empty() }) + "\" data-node=\""@
        + id + "\">\n  <span class=\"node-content\" onclick=\"toggleNode('"@ + id
        + "')\">\n    <span class=\"arrow\">"@ + (if has_children { ">"@ } else { Seq::<char>::empty() })
        + "</span>\n    <span class=\"name\">"@ + escape_html(name)
        + "</span>\n    <span class=\"cpu-total\">"@ + total + "%</span>\n    <span class=\"cpu-self\">"@
        + selft + "s</span>\n  </span>\n"@
}

pub open spec fn node_head(d: TreeText, j: int) -> Seq<char> {
    head_text(node_id(d.lines[j]), d.children[j].len() > 0, d.names[j], d.totals[j], d.selfs[j])
}

/// The HTML list item of function `j` and, nested, its subtree.
pub open spec fn subtree_html(d: TreeText, j: int) -> Seq<char>
    decreases d.names.len() - j, 1int, 0int,
{
    if 0 <= j < d.names.len() {
        node_head(d, j) + if d.children[j].len() > 0 {
            "  <ul class=\"children\" id=\"children_"@ + node_id(d.lines[j]) + "\" style=\"display: none;\">\n"@
                + forest_html(d, j, d.children[j]) + "  </ul>\n"@
        } else {
            Seq::<char>::empty()
        } + "</li>\n"@
    } else {
        Seq::<char>::empty()
    }
}

/// The subtrees of the functions `cs`, children of `j`, one after another.
pub open spec fn forest_html(d: TreeText, j: int, cs: Seq<usize>) -> Seq<char>
    decreases d.names.len() - j, 0int, cs.len(),
{
    if cs.len() == 0 {
        Seq::<char>::empty()
    } else if j < cs.last() < d.names.len() {
        forest_html(d, j, cs.drop_last()) + subtree_html(d, cs.last() as int)
    } else {
        forest_html(d, j, cs.drop_last())
    }
}

/// The HTML of the whole tree: the subtrees of its roots.
pub open spec fn tree_html(d: TreeText, roots: Seq<usize>) -> Seq<char>
    decreases roots.len(),
{
    if roots.len() == 0 {
        Seq::<char>::empty()
    } else {
        tree_html(d, roots.drop_last()) + subtree_html(d, roots.last() as int)
    }
}

pub open spec fn tree_text(rows: Seq<TopdownRow>, t: CallTree, labels: Seq<(String, String)>) -> TreeText {
    TreeText {
        lines: rows.map_values(|r: TopdownRow| r.line as int),
        names: rows.map_values(|r: TopdownRow| r.name@),
        children: t.children@.map_values(|c: Vec<usize>| c@),
        totals: labels.map_values(|l: (String, String)| l.0@),
        selfs: labels.map_values(|l: (String, String)| l.1@),
    }
}

fn escape_html_exec(s: &String) -> (res: String)
    ensures
        res@ == escape_html(s@),
        forall|i: int| 0 <= i < res@.len() ==> #[trigger] res@[i] != '<' && res@[i] != '>' && res@[i] != '"',
        unescape_html(res@) == s@,
{
    proof {
        lemma_escape_html(s@);
    }
    let a = replace_char_exec(&chars_of(s.as_str()), '&', &chars_of("&amp;"));
    let b = replace_char_exec(&a, '<', &chars_of("&lt;"));
    let c = replace_char_exec(&b, '>', &chars_of("&gt;"));
    let d = replace_char_exec(&c, '"', &chars_of("&quot;"));
    string_from_chars(&d)
}

fn head_html(id: &str, has_children: bool, name: &String, total: &String, selft: &String) -> (res: String)
    ensures
        res@ == head_text(id@, has_children, name@, total@, selft@),
{
    let mut out = "<li class=\"tree-node ".to_owned();
    if has_children {
        out.append("collapsed");
    }
    out.append("\" data-node=\"");
    out.append(id);
    out.append("\">\n  <span class=\"node-content\" onclick=\"toggleNode('");
    out.append(id);
    out.append("')\">\n    <span class=\"arrow\">");
    if has_children {
        out.append(">");
    }
    out.append("</span>\n    <span class=\"name\">");
    out.append(escape_html_exec(name).as_str());
    out.append("</span>\n    <span class=\"cpu-total\">");
    out.append(total.as_str());
    out.append("%</span>\n    <span class=\"cpu-self\">");
    out.append(selft.as_str());
    out.append("s</span>\n  </span>\n");
    proof {
        assert(out@ =~= head_text(id@, has_children, name@, total@, selft@));
    }
    out
}

#[verifier::rlimit(40)]
fn append_subtree(
    out: &mut String,
    rows: &Vec<TopdownRow>,
    t: &CallTree,
    labels: &Vec<(String, String)>,
    j: usize,
    Ghost(d): Ghost<TreeText>,
)
    requires
        is_call_tree(levels(rows@), *t),
        labels@.len() == rows@.len(),
        d == tree_text(rows@, *t, labels@),
        j < rows@.len(),
    ensures
        final(out)@ == old(out)@ + subtree_html(d, j as int),
    decreases rows@.len() - j,
{
    let ghost start = out@;
    let row = &rows[j];
    let mut id = "node_".to_owned();
    id.append(decimal_text(row.line as i128).as_str());
    let has_children = t.children[j].len() > 0;
    let head = head_html(id.as_str(), has_children, &row.name, &labels[j].0, &labels[j].1);
    out.append(head.as_str());
    proof {
        assert(d.lines[j as int] == row.line as int);
        assert(d.names[j as int] == row.name@);
        assert(d.children[j as int] == t.children@[j as int]@);
        assert(d.totals[j as int] == labels@[j as int].0@);
        assert(d.selfs[j as int] == labels@[j as int].1@);
        assert(id@ =~= node_id(d.lines[j as int]));
        assert(out@ == start + node_head(d, j as int));
    }
    if has_children {
        out.append("  <ul class=\"children\" id=\"children_");
        out.append(id.as_str());
        out.append("\" style=\"display: none;\">\n");
        let ghost mid = out@;
        let cs = &t.children[j];
        let np = t.parent.len();
        proof {
            assert(np == t.parent@.len());
            lemma_kids_exact(t.parent@, j);
            assert(cs@ == kids(t.parent@, j));
            assert(cs@.take(0) =~= Seq::<usize>::empty());
        }
        let mut c: usize = 0;
        while c < cs.len()
            invariant
                is_call_tree(levels(rows@), *t),
                labels@.len() == rows@.len(),
                d == tree_text(rows@, *t, labels@),
                j < rows@.len(),
                *cs == t.children@[j as int],
                cs@ == kids(t.parent@, j),
                forall|q: int| 0 <= q < cs@.len() ==> {
                    &&& (#[trigger] cs@[q]) < t.parent@.len()
                    &&& t.parent@[cs@[q] as int] == Some(j)
                },
                c <= cs@.len(),
                out@ == mid + forest_html(d, j as int, cs@.take(c as int)),
            decreases cs@.len() - c,
        {
            let k = cs[c];
            proof {
                assert(parent_ok(levels(rows@), t.parent@[k as int], k as int));
                assert(j < k);
                assert(cs@.take(c + 1).drop_last() =~= cs@.take(c as int));
                assert(cs@.take(c + 1).last() == k);
            }
            append_subtree(out, rows, t, labels, k, Ghost(d));
            c += 1;
        }
        out.append("  </ul>\n");
        proof {
            assert(cs@.take(c as int) =~= cs@);
        }
    }
    out.append("</li>\n");
    proof {
        assert(out@ =~= start + subtree_html(d, j as int));
    }
}

/// The nested HTML list of a call tree: each function as a list item with
/// its name (HTML-escaped), the given texts of its total and self CPU time,
/// and its children nested in a collapsed list.
pub fn call_tree_html(rows: &Vec<TopdownRow>, t: &CallTree, labels: &Vec<(String, String)>) -> (res: String)
    requires
        is_call_tree(levels(rows@), *t),
        labels@.len() == rows@.len(),
    ensures
        res@ == tree_html(tree_text(rows@, *t, labels@), t.roots@),
{
    let ghost d = tree_text(rows@, *t, labels@);
    let mut out = String::new();
    let mut r: usize = 0;
    let np = t.parent.len();
    proof {
        assert(np == t.parent@.len());
        assert(t.roots@.take(0) =~= Seq::<usize>::empty());
        assert forall|q: int| 0 <= q < t.roots@.len() implies (#[trigger] t.roots@[q]) < rows@.len() by {
            lemma_roots_exact(t.parent@);
        }
    }
    while r < t.roots.len()
        invariant
            is_call_tree(levels(rows@), *t),
            labels@.len() == rows@.len(),
            d == tree_text(rows@, *t, labels@),
            forall|q: int| 0 <= q < t.roots@.len() ==> (#[trigger] t.roots@[q]) < rows@.len(),
            r <= t.roots@.len(),
            out@ == tree_html(d, t.roots@.take(r as int)),
        decreases t.roots@.len() - r,
    {
        let k = t.roots[r];
        proof {
            assert(t.roots@.take(r + 1).drop_last() =~= t.roots@.take(r as int));
        }
        append_subtree(&mut out, rows, t, labels, k, Ghost(d));
        r += 1;
    }
    proof {
        assert(t.roots@.take(r as int) =~= t.roots@);
    }
    out
}

proof fn lemma_kids_exact(pv: Seq<Option<usize>>, j: usize)
    requires
        pv.len() <= usize::MAX,
    ensures
        forall|a: int, b: int| 0 <= a < b < kids(pv, j).len() ==> (#[trigger] kids(pv, j)[a]) < (#[trigger] kids(pv, j)[b]),
        forall|k: int| 0 <= k < pv.len() ==> (kids(pv, j).contains(k as usize) <==> #[trigger] pv[k] == Some(j)),
        forall|c: int| 0 <= c < kids(pv, j).len() ==> (#[trigger] kids(pv, j)[c]) < pv.len() && pv[kids(pv, j)[c] as int] == Some(j),
    decreases pv.len(),
{
    if pv.len() > 0 {
        let q = pv.drop_last();
        lemma_kids_exact(q, j);
        let r = kids(q, j);
        let n = (pv.len() - 1) as usize;
        assert forall|k: int| 0 <= k < pv.len() implies (kids(pv, j).contains(k as usize) <==> #[trigger] pv[k] == Some(j)) by {
            if k < q.len() {
                assert(pv[k] == q[k]);
                if kids(pv, j).contains(k as usize) {
                    let c = choose|c: int| 0 <= c < kids(pv, j).len() && kids(pv, j)[c] == k as usize;
                    if c < r.len() {
                        assert(kids(pv, j)[c] == r[c]);
                        assert(r.contains(k as usize));
                    } else {
                        assert(kids(pv, j)[c] == n);
                    }
                }
                if pv[k] == Some(j) {
                    assert(r.contains(k as usize));
                    let c = choose|c: int| 0 <= c < r.len() && r[c] == k as usize;
                    assert(kids(pv, j)[c] == r[c]);
                }
            } else {
                if pv[k] == Some(j) {
                    assert(kids(pv, j)[r.len() as int] == n);
                } else {
                    if kids(pv, j).contains(k as usize) {
                        let c = choose|c: int| 0 <= c < kids(pv, j).len() && kids(pv, j)[c] == k as usize;
                        assert(kids(pv, j)[c] == r[c]);
                    }
                }
            }
        }
        assert forall|a: int, b: int| 0 <= a < b < kids(pv, j).len() implies (#[trigger] kids(pv, j)[a]) < (#[trigger] kids(pv, j)[b]) by {
            assert(kids(pv, j)[a] == r[a]);
            if b < r.len() {
                assert(kids(pv, j)[b] == r[b]);
            }
        }
        assert forall|c: int| 0 <= c < kids(pv, j).len() implies (#[trigger] kids(pv, j)[c]) < pv.len() && pv[kids(pv, j)[c] as int] == Some(j) by {
            if c < r.len() {
                assert(kids(pv, j)[c] == r[c]);
                assert(pv[r[c] as int] == q[r[c] as int]);
            } else {
                assert(kids(pv, j)[c] == n);
            }
        }
    }
}

proof fn lemma_roots_exact(pv: Seq<Option<usize>>)
    requires
        pv.len() <= usize::MAX,
    ensures
        forall|a: int, b: int| 0 <= a < b < roots_of(pv).len() ==> (#[trigger] roots_of(pv)[a]) < (#[trigger] roots_of(pv)[b]),
        forall|k: int| 0 <= k < pv.len() ==> (roots_of(pv).contains(k as usize) <==> (#[trigger] pv[k]) is None),
        forall|c: int| 0 <= c < roots_of(pv).len() ==> (#[trigger] roots_of(pv)[c]) < pv.len(),
    decreases pv.len(),
{
    if pv.len() > 0 {
        let q = pv.drop_last();
        lemma_roots_exact(q);
        let r = roots_of(q);
        let n = (pv.len() - 1) as usize;
        assert forall|k: int| 0 <= k < pv.len() implies (roots_of(pv).contains(k as usize) <==> (#[trigger] pv[k]) is None) by {
            if k < q.len() {
                assert(pv[k] == q[k]);
                if roots_of(pv).contains(k as usize) {
                    let c = choose|c: int| 0 <= c < roots_of(pv).len() && roots_of(pv)[c] == k as usize;
                    if c < r.len() {
                        assert(roots_of(pv)[c] == r[c]);
                        assert(r.contains(k as usize));
                    } else {
                        assert(roots_of(pv)[c] == n);
                    }
                }
                if pv[k] is None {
                    assert(r.contains(k as usize));
                    let c = choose|c: int| 0 <= c < r.len() && r[c] == k as usize;
                    assert(roots_of(pv)[c] == r[c]);
                }
            } else {
                if pv[k] is None {
                    assert(roots_of(pv)[r.len() as int] == n);
                } else {
                    if roots_of(pv).contains(k as usize) {
                        let c = choose|c: int| 0 <= c < roots_of(pv).len() && roots_of(pv)[c] == k as usize;
                        assert(roots_of(pv)[c] == r[c]);
                    }
                }
            }
        }
        assert forall|a: int, b: int| 0 <= a < b < roots_of(pv).len() implies (#[trigger] roots_of(pv)[a]) < (#[trigger] roots_of(pv)[b]) by {
            assert(roots_of(pv)[a] == r[a]);
            if b < r.len() {
                assert(roots_of(pv)[b] == r[b]);
            }
        }
        assert forall|c: int| 0 <= c < roots_of(pv).len() implies (#[trigger] roots_of(pv)[c]) < pv.len() by {
            if c < r.len() {
                assert(roots_of(pv)[c] == r[c]);
            }
        }
    }
}

/// Every function of a call tree is listed exactly once: among the roots
/// when it has no parent, else among the children of its parent, which
/// comes before it and is indented less. Each list is in report order.
pub proof fn lemma_call_tree_lists(lv: Seq<nat>, t: CallTree)
    requires
        is_call_tree(lv, t),
        lv.len() <= usize::MAX,
    ensures
        forall|a: int, b: int| 0 <= a < b < t.roots@.len() ==> (#[trigger] t.roots@[a]) < (#[trigger] t.roots@[b]),
        forall|k: int| 0 <= k < lv.len() ==> (t.roots@.contains(k as usize) <==> (#[trigger] t.parent@[k]) is None),
        forall|j: int, k: int| 0 <= j < lv.len() && 0 <= k < lv.len() ==>
            ((#[trigger] t.children@[j])@.contains(k as usize) <==> #[trigger] t.parent@[k] == Some(j as usize)),
        forall|j: int, a: int, b: int| 0 <= j < lv.len() && 0 <= a < b < t.children@[j]@.len() ==>
            (#[trigger] t.children@[j]@[a]) < (#[trigger] t.children@[j]@[b]),
        forall|k: int| 0 <= k < lv.len() ==> match #[trigger] t.parent@[k] {
            Some(p) => p < k && lv[p as int] < lv[k],
            None => true,
        },
{
    lemma_roots_exact(t.parent@);
    assert forall|j: int, k: int| 0 <= j < lv.len() && 0 <= k < lv.len() implies
        ((#[trigger] t.children@[j])@.contains(k as usize) <==> #[trigger] t.parent@[k] == Some(j as usize)) by {
        lemma_kids_exact(t.parent@, j as usize);
    }
    assert forall|j: int, a: int, b: int| 0 <= j < lv.len() && 0 <= a < b < t.children@[j]@.len() implies
        (#[trigger] t.children@[j]@[a]) < (#[trigger] t.children@[j]@[b]) by {
        lemma_kids_exact(t.parent@, j as usize);
    }
    assert forall|k: int| 0 <= k < lv.len() implies match #[trigger] t.parent@[k] {
        Some(p) => p < k && lv[p as int] < lv[k],
        None => true,
    } by {
        assert(parent_ok(lv, t.parent@[k], k));
    }
}

} // verus!
