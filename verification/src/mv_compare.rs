//! Comparison of two motion-vector dumps.
//!
//! Rows are matched on their [`Key`]. For every key, in ascending key order,
//! the report lists the key's rows missing on one side, rows present on only
//! one side at a given position, and compared values that differ. A
//! comparison reads one of two column sets ([`Columns`]): the endpoint
//! coordinates, with zero-size vectors (source and destination coincide)
//! ignored on both sides, or the block size and motion values of every
//! vector.

use vstd::prelude::*;
use vstd::string::*;
use crate::key::{Key, key_le, key_lt, key_display, lemma_key_order};
use crate::grouping::{Entry, has_key, key_sorted, same_groups, stable_sort_by_key, lemma_filter_none, lemma_filter_all};
use crate::text::{decimal_text, int_text};

verus! {

broadcast use vstd::seq_lib::group_seq_lib_default;

/// A floating-point value as the comparison reads it.
///
/// `eq_class` is `None` for NaN; otherwise two values are `==` exactly when
/// their classes are equal (both zeros share one class). `text` is the value
/// rendered with `Display`.
pub struct FloatField {
    pub eq_class: Option<u64>,
    pub text: String,
}

/// One motion vector of a dump, reduced to what a comparison reads: its key,
/// its endpoint coordinates, its block size and its motion values.
pub struct MvRow {
    pub key: Key,
    pub src_x: FloatField,
    pub src_y: FloatField,
    pub dst_x: FloatField,
    pub dst_y: FloatField,
    pub w: FloatField,
    pub h: FloatField,
    pub motion_x: FloatField,
    pub motion_y: FloatField,
    pub motion_scale: FloatField,
}

/// The columns a comparison checks on the rows that share a key.
#[derive(Clone, Copy, Debug)]
pub enum Columns {
    /// The endpoint coordinates `src_x`, `src_y`, `dst_x`, `dst_y`;
    /// zero-size vectors take no part.
    Endpoints,
    /// The block size and motion values `w`, `h`, `motion_x`, `motion_y`,
    /// `motion_scale`; every vector takes part.
    Values,
}

/// Floating-point `==` on two compared values.
pub open spec fn float_eq(a: FloatField, b: FloatField) -> bool {
    a.eq_class is Some && a.eq_class == b.eq_class
}

/// The vector has no displacement: source and destination coincide.
pub open spec fn zero_size(r: MvRow) -> bool {
    float_eq(r.src_x, r.dst_x) && float_eq(r.src_y, r.dst_y)
}

/// The row takes part in a comparison on columns `c`.
pub open spec fn counted(c: Columns, r: MvRow) -> bool {
    c is Values || !zero_size(r)
}

/// Selects the rows with key `k` that take part.
pub open spec fn keeps(c: Columns, k: Key) -> spec_fn(MvRow) -> bool {
    |r: MvRow| counted(c, r) && r.key == k
}

/// The rows of a dump that the comparison matches under key `k`, in dump order.
pub open spec fn rows_with_key(c: Columns, rows: Seq<MvRow>, k: Key) -> Seq<MvRow> {
    rows.filter(keeps(c, k))
}

/// Keys of the rows of either dump that take part.
pub open spec fn key_set(c: Columns, first: Seq<MvRow>, second: Seq<MvRow>) -> Set<Key> {
    Set::new(
        |k: Key|
            (exists|i: int| 0 <= i < first.len() && counted(c, first[i]) && first[i].key == k)
                || (exists|i: int| 0 <= i < second.len() && counted(c, second[i]) && second[i].key
                == k),
    )
}

/// Report text: the key's rows are missing from the first file
/// (`in_first`) or from the second.
pub open spec fn missing_line(k: Key, in_first: bool) -> Seq<char> {
    if in_first {
        key_display(k) + ": missing in first file"@
    } else {
        key_display(k) + ": missing in second file"@
    }
}

/// Report text: the first file (`in_first`) or the second has an extra row
/// of the key, at the position written `index`.
pub open spec fn extra_line(k: Key, index: Seq<char>, in_first: bool) -> Seq<char> {
    if in_first {
        key_display(k) + ": extra row in first file (index "@ + index + ")"@
    } else {
        key_display(k) + ": extra row in second file (index "@ + index + ")"@
    }
}

/// Report text: column `name` of a row pair of the key holds `first` in the
/// first file and `second` in the second.
pub open spec fn differs_line(k: Key, name: Seq<char>, first: Seq<char>, second: Seq<char>) -> Seq<char> {
    key_display(k) + ": '"@ + name + "' differs (first="@ + first + ", second="@ + second + ")"@
}

/// Report line for one column of a row pair, if the values differ.
pub open spec fn field_diff(k: Key, name: Seq<char>, a: FloatField, b: FloatField) -> Seq<(Key, Seq<char>)> {
    if float_eq(a, b) {
        seq![]
    } else {
        seq![(k, differs_line(k, name, a.text@, b.text@))]
    }
}

/// Report lines for two rows of key `k` that stand at the same position.
pub open spec fn pair_diffs(c: Columns, k: Key, a: MvRow, b: MvRow) -> Seq<(Key, Seq<char>)> {
    match c {
        Columns::Endpoints => field_diff(k, "src_x"@, a.src_x, b.src_x) + field_diff(k, "src_y"@, a.src_y, b.src_y)
            + field_diff(k, "dst_x"@, a.dst_x, b.dst_x) + field_diff(k, "dst_y"@, a.dst_y, b.dst_y),
        Columns::Values => field_diff(k, "w"@, a.w, b.w) + field_diff(k, "h"@, a.h, b.h)
            + field_diff(k, "motion_x"@, a.motion_x, b.motion_x) + field_diff(k, "motion_y"@, a.motion_y, b.motion_y)
            + field_diff(k, "motion_scale"@, a.motion_scale, b.motion_scale),
    }
}

/// Report lines for the `t`-th rows of key `k` on both sides.
pub open spec fn row_diffs(c: Columns, k: Key, t: int, f: Seq<MvRow>, s: Seq<MvRow>) -> Seq<(Key, Seq<char>)> {
    if t >= f.len() {
        seq![(k, extra_line(k, int_text(t), false))]
    } else if t >= s.len() {
        seq![(k, extra_line(k, int_text(t), true))]
    } else {
        pair_diffs(c, k, f[t], s[t])
    }
}

pub open spec fn max_len(a: int, b: int) -> int {
    if a >= b { a } else { b }
}

/// Report lines for key `k`, whose rows are `f` in the first dump and `s` in
/// the second.
pub open spec fn key_diffs(c: Columns, k: Key, f: Seq<MvRow>, s: Seq<MvRow>) -> Seq<(Key, Seq<char>)> {
    if f.len() > 0 && s.len() == 0 {
        seq![(k, missing_line(k, false))]
    } else if f.len() == 0 && s.len() > 0 {
        seq![(k, missing_line(k, true))]
    } else {
        Seq::new(max_len(f.len() as int, s.len() as int) as nat, |t: int| row_diffs(c, k, t, f, s)).flatten()
    }
}

/// The report lines of key `k` for the two dumps.
pub open spec fn diffs_of_key(c: Columns, first: Seq<MvRow>, second: Seq<MvRow>) -> spec_fn(Key) -> Seq<(Key, Seq<char>)> {
    |k: Key| key_diffs(c, k, rows_with_key(c, first, k), rows_with_key(c, second, k))
}

/// Keys in strictly ascending order.
pub open spec fn strictly_sorted(ks: Seq<Key>) -> bool {
    forall|i: int, j: int| 0 <= i < j < ks.len() ==> key_lt(#[trigger] ks[i], #[trigger] ks[j])
}

/// The report of the two dumps, given their keys in ascending order.
pub open spec fn report_for_keys(c: Columns, first: Seq<MvRow>, second: Seq<MvRow>, ks: Seq<Key>) -> Seq<(Key, Seq<char>)> {
    ks.map_values(diffs_of_key(c, first, second)).flatten()
}

/// `out` is the comparison report of `first` against `second`: the report
/// lines of every key of either dump, keys taken in ascending order.
pub open spec fn is_comparison(c: Columns, first: Seq<MvRow>, second: Seq<MvRow>, out: Seq<(Key, Seq<char>)>) -> bool {
    exists|ks: Seq<Key>|
        strictly_sorted(ks) && ks.to_set() == key_set(c, first, second) && out == #[trigger] report_for_keys(c, first, second, ks)
}

pub open spec fn diffs_view(v: Seq<(Key, String)>) -> Seq<(Key, Seq<char>)> {
    v.map_values(|d: (Key, String)| (d.0, d.1@))
}

/// Floating-point `==` on two compared values.
pub fn float_fields_equal(a: &FloatField, b: &FloatField) -> (res: bool)
    ensures
        res == float_eq(*a, *b),
{
    match (a.eq_class, b.eq_class) {
        (Some(x), Some(y)) => x == y,
        _ => false,
    }
}

/// Zero-size vector: source and destination points coincide (no
/// displacement). `compare_frames` skips these on both sides.
pub fn is_zero_size(mv: &MvRow) -> (res: bool)
    ensures
        res == zero_size(*mv),
{
    float_fields_equal(&mv.src_x, &mv.dst_x) && float_fields_equal(&mv.src_y, &mv.dst_y)
}

/// Whether the row takes part in a comparison on columns `c`.
fn takes_part(c: Columns, mv: &MvRow) -> (res: bool)
    ensures
        res == counted(c, *mv),
{
    match c {
        Columns::Endpoints => !is_zero_size(mv),
        Columns::Values => true,
    }
}

// ---------------------------------------------------------------------------
// Entries: the (key, position) pairs of the rows of a dump that take part.

pub open spec fn entries(c: Columns, rows: Seq<MvRow>) -> Seq<Entry>
    decreases rows.len(),
{
    if rows.len() == 0 {
        seq![]
    } else {
        let p = rows.drop_last();
        if !counted(c, rows.last()) {
            entries(c, p)
        } else {
            entries(c, p).push((rows.last().key, (rows.len() - 1) as usize))
        }
    }
}

pub open spec fn row_at(rows: Seq<MvRow>) -> spec_fn(Entry) -> MvRow {
    |e: Entry| rows[e.1 as int]
}

proof fn lemma_entries_valid(c: Columns, rows: Seq<MvRow>)
    requires
        rows.len() <= usize::MAX,
    ensures
        forall|t: int| 0 <= t < entries(c, rows).len() ==> {
            let e = #[trigger] entries(c, rows)[t];
            &&& e.1 < rows.len()
            &&& rows[e.1 as int].key == e.0
            &&& counted(c, rows[e.1 as int])
        },
        forall|i: int|
            0 <= i < rows.len() && counted(c, #[trigger] rows[i]) ==> entries(c, rows).contains((rows[i].key, i as usize)),
    decreases rows.len(),
{
    if rows.len() > 0 {
        let p = rows.drop_last();
        lemma_entries_valid(c, p);
        assert forall|i: int|
            0 <= i < rows.len() && counted(c, #[trigger] rows[i]) implies entries(c, rows).contains((rows[i].key, i as usize)) by {
            if i < p.len() {
                assert(p[i] == rows[i]);
                let u = choose|u: int| 0 <= u < entries(c, p).len() && entries(c, p)[u] == (p[i].key, i as usize);
                if !counted(c, rows.last()) {
                } else {
                    assert(entries(c, rows)[u] == entries(c, p)[u]);
                }
            } else {
                assert(entries(c, rows).last() == (rows[i].key, i as usize));
            }
        }
    }
}

proof fn lemma_entries_group(c: Columns, rows: Seq<MvRow>, k: Key)
    requires
        rows.len() <= usize::MAX,
    ensures
        entries(c, rows).filter(has_key(k)).map_values(row_at(rows)) == rows_with_key(c, rows, k),
    decreases rows.len(),
{
    if rows.len() == 0 {
        reveal(Seq::filter);
        assert(entries(c, rows).filter(has_key(k)).map_values(row_at(rows)) =~= rows_with_key(c, rows, k));
    } else {
        let p = rows.drop_last();
        let x = rows.last();
        lemma_entries_group(c, p, k);
        lemma_entries_valid(c, p);
        assert(rows =~= p.push(x));
        p.lemma_filter_push(x, keeps(c, k));
        let gp = entries(c, p).filter(has_key(k));
        assert forall|t: int| 0 <= t < gp.len() implies (#[trigger] gp[t]).1 < p.len() by {
            assert(gp.contains(gp[t]));
            entries(c, p).lemma_filter_contains_rev(has_key(k), gp[t]);
            let u = choose|u: int| 0 <= u < entries(c, p).len() && entries(c, p)[u] == gp[t];
            assert(entries(c, p)[u].1 < p.len());
        }
        assert(gp.map_values(row_at(rows)) =~= gp.map_values(row_at(p)));
        if !counted(c, x) {
            assert(entries(c, rows) == entries(c, p));
        } else {
            let e: Entry = (x.key, (rows.len() - 1) as usize);
            assert(entries(c, rows) == entries(c, p).push(e));
            entries(c, p).lemma_filter_push(e, has_key(k));
            if x.key == k {
                assert(entries(c, rows).filter(has_key(k)).map_values(row_at(rows)) =~= gp.map_values(row_at(rows)).push(x));
            }
        }
    }
}

/// The entries of the rows of a dump that take part, in dump order.
fn collect_entries(c: Columns, rows: &Vec<MvRow>) -> (res: Vec<Entry>)
    ensures
        res@ == entries(c, rows@),
{
    let mut res: Vec<Entry> = Vec::new();
    let mut i: usize = 0;
    while i < rows.len()
        invariant
            i <= rows@.len(),
            res@ == entries(c, rows@.take(i as int)),
        decreases rows@.len() - i,
    {
        proof {
            assert(rows@.take(i + 1).drop_last() =~= rows@.take(i as int));
        }
        if takes_part(c, &rows[i]) {
            res.push((rows[i].key, i));
        }
        i += 1;
    }
    proof {
        assert(rows@.take(i as int) =~= rows@);
    }
    res
}


/// Appends the report line of one column of a row pair, if the values differ.
fn push_field_diff(out: &mut Vec<(Key, String)>, k: Key, name: &str, a: &FloatField, b: &FloatField)
    ensures
        diffs_view(final(out)@) == diffs_view(old(out)@) + field_diff(k, name@, *a, *b),
{
    if !float_fields_equal(a, b) {
        let mut m = k.display();
        m.append(": '");
        m.append(name);
        m.append("' differs (first=");
        m.append(a.text.as_str());
        m.append(", second=");
        m.append(b.text.as_str());
        m.append(")");
        let ghost before = out@;
        out.push((k, m));
        proof {
            assert(diffs_view(out@) =~= diffs_view(before) + field_diff(k, name@, *a, *b));
        }
    } else {
        proof {
            assert(diffs_view(out@) =~= diffs_view(out@) + field_diff(k, name@, *a, *b));
        }
    }
}

/// Appends the report lines of two rows of key `k` at the same position.
fn push_pair_diffs(out: &mut Vec<(Key, String)>, c: Columns, k: Key, a: &MvRow, b: &MvRow)
    ensures
        diffs_view(final(out)@) == diffs_view(old(out)@) + pair_diffs(c, k, *a, *b),
{
    let ghost start = out@;
    match c {
        Columns::Endpoints => {
            push_field_diff(out, k, "src_x", &a.src_x, &b.src_x);
            push_field_diff(out, k, "src_y", &a.src_y, &b.src_y);
            push_field_diff(out, k, "dst_x", &a.dst_x, &b.dst_x);
            push_field_diff(out, k, "dst_y", &a.dst_y, &b.dst_y);
        },
        Columns::Values => {
            push_field_diff(out, k, "w", &a.w, &b.w);
            push_field_diff(out, k, "h", &a.h, &b.h);
            push_field_diff(out, k, "motion_x", &a.motion_x, &b.motion_x);
            push_field_diff(out, k, "motion_y", &a.motion_y, &b.motion_y);
            push_field_diff(out, k, "motion_scale", &a.motion_scale, &b.motion_scale);
        },
    }
    proof {
        assert(diffs_view(out@) =~= diffs_view(start) + pair_diffs(c, k, *a, *b));
    }
}

/// Appends the report lines of key `k`, whose rows are those of the entries
/// `fe[i..i2]` in `first` and `se[j..j2]` in `second`.
fn push_key_diffs(
    out: &mut Vec<(Key, String)>,
    c: Columns,
    k: Key,
    first: &Vec<MvRow>,
    fe: &Vec<Entry>,
    i: usize,
    i2: usize,
    second: &Vec<MvRow>,
    se: &Vec<Entry>,
    j: usize,
    j2: usize,
)
    requires
        i <= i2 <= fe@.len(),
        j <= j2 <= se@.len(),
        forall|t: int| 0 <= t < fe@.len() ==> (#[trigger] fe@[t]).1 < first@.len(),
        forall|t: int| 0 <= t < se@.len() ==> (#[trigger] se@[t]).1 < second@.len(),
    ensures
        diffs_view(final(out)@) == diffs_view(old(out)@) + key_diffs(
            c,
            k,
            fe@.subrange(i as int, i2 as int).map_values(row_at(first@)),
            se@.subrange(j as int, j2 as int).map_values(row_at(second@)),
        ),
{
    let ghost f = fe@.subrange(i as int, i2 as int).map_values(row_at(first@));
    let ghost s = se@.subrange(j as int, j2 as int).map_values(row_at(second@));
    let ghost start = out@;
    let nf = i2 - i;
    let ns = j2 - j;
    if nf > 0 && ns == 0 {
        let mut m = k.display();
        m.append(": missing in second file");
        out.push((k, m));
        proof {
            assert(diffs_view(out@) =~= diffs_view(start) + key_diffs(c, k, f, s));
        }
    } else if nf == 0 && ns > 0 {
        let mut m = k.display();
        m.append(": missing in first file");
        out.push((k, m));
        proof {
            assert(diffs_view(out@) =~= diffs_view(start) + key_diffs(c, k, f, s));
        }
    } else {
        let n = if nf >= ns { nf } else { ns };
        let ghost rd = |t: int| row_diffs(c, k, t, f, s);
        let mut t: usize = 0;
        proof {
            assert(Seq::new(0, rd).flatten() =~= Seq::<(Key, Seq<char>)>::empty());
            assert(diffs_view(out@) =~= diffs_view(start) + Seq::new(0, rd).flatten());
        }
        while t < n
            invariant
                t <= n,
                n as int == max_len(f.len() as int, s.len() as int),
                nf == f.len(),
                ns == s.len(),
                i <= i2 <= fe@.len(),
                j <= j2 <= se@.len(),
                nf == i2 - i,
                ns == j2 - j,
                f == fe@.subrange(i as int, i2 as int).map_values(row_at(first@)),
                s == se@.subrange(j as int, j2 as int).map_values(row_at(second@)),
                forall|u: int| 0 <= u < fe@.len() ==> (#[trigger] fe@[u]).1 < first@.len(),
                forall|u: int| 0 <= u < se@.len() ==> (#[trigger] se@[u]).1 < second@.len(),
                rd == (|u: int| row_diffs(c, k, u, f, s)),
                diffs_view(out@) == diffs_view(start) + Seq::new(t as nat, rd).flatten(),
            decreases n - t,
        {
            let ghost before = out@;
            if t >= nf {
                let mut m = k.display();
                m.append(": extra row in second file (index ");
                m.append(decimal_text(t as i128).as_str());
                m.append(")");
                out.push((k, m));
                proof {
                    assert(diffs_view(out@) =~= diffs_view(before) + rd(t as int));
                }
            } else if t >= ns {
                let mut m = k.display();
                m.append(": extra row in first file (index ");
                m.append(decimal_text(t as i128).as_str());
                m.append(")");
                out.push((k, m));
                proof {
                    assert(diffs_view(out@) =~= diffs_view(before) + rd(t as int));
                }
            } else {
                let fr = &first[fe[i + t].1];
                let sr = &second[se[j + t].1];
                proof {
                    assert(f[t as int] == *fr);
                    assert(s[t as int] == *sr);
                }
                push_pair_diffs(out, c, k, fr, sr);
                proof {
                    assert(diffs_view(out@) =~= diffs_view(before) + rd(t as int));
                }
            }
            proof {
                assert(Seq::new((t + 1) as nat, rd) =~= Seq::new(t as nat, rd).push(rd(t as int)));
                Seq::new(t as nat, rd).lemma_flatten_push(rd(t as int));
                assert(diffs_view(out@) =~= diffs_view(start) + Seq::new((t + 1) as nat, rd).flatten());
            }
            t += 1;
        }
        proof {
            assert(Seq::new(max_len(f.len() as int, s.len() as int) as nat, |u: int| row_diffs(c, k, u, f, s)) =~= Seq::new(t as nat, rd));
        }
    }
}


/// In a key-sorted sequence, the entries of key `k` are the block `s[i..i2]`
/// when everything before it is smaller and everything after it is larger.
proof fn lemma_block_is_group(s: Seq<Entry>, i: int, i2: int, k: Key)
    requires
        key_sorted(s),
        0 <= i <= i2 <= s.len(),
        forall|t: int| 0 <= t < i ==> key_lt(#[trigger] s[t].0, k),
        forall|t: int| i <= t < i2 ==> (#[trigger] s[t]).0 == k,
        i2 < s.len() ==> key_lt(k, s[i2].0),
    ensures
        s.filter(has_key(k)) == s.subrange(i, i2),
{
    let a = s.subrange(0, i);
    let b = s.subrange(i, i2);
    let c = s.subrange(i2, s.len() as int);
    assert(s =~= a + b + c);
    assert forall|t: int| 0 <= t < a.len() implies (#[trigger] a[t]).0 != k by {
        lemma_key_order(a[t].0, k, k);
    }
    lemma_filter_none(a, k);
    lemma_filter_all(b, k);
    assert forall|t: int| 0 <= t < c.len() implies (#[trigger] c[t]).0 != k by {
        if t > 0 {
            assert(key_le(s[i2].0, s[i2 + t].0));
        }
        lemma_key_order(k, s[i2].0, s[i2 + t].0);
    }
    lemma_filter_none(c, k);
    assert((a + b + c).filter(has_key(k)) == (a + b).filter(has_key(k)) + c.filter(has_key(k)));
    assert((a + b).filter(has_key(k)) == a.filter(has_key(k)) + b.filter(has_key(k)));
    assert(s.filter(has_key(k)) =~= b);
}

/// The report for `ks` extended by one key.
proof fn lemma_report_push(c: Columns, first: Seq<MvRow>, second: Seq<MvRow>, ks: Seq<Key>, k: Key)
    ensures
        report_for_keys(c, first, second, ks.push(k)) == report_for_keys(c, first, second, ks) + diffs_of_key(c, first, second)(k),
{
    let f = diffs_of_key(c, first, second);
    assert(ks.push(k).map_values(f) =~= ks.map_values(f).push(f(k)));
    ks.map_values(f).lemma_flatten_push(f(k));
}

/// Compares two motion-vector dumps on columns `c` and returns their
/// differences, one `(key, message)` pair per difference, sorted by key.
pub fn compare_by_columns(c: Columns, first: &Vec<MvRow>, second: &Vec<MvRow>) -> (out: Vec<(Key, String)>)
    ensures
        is_comparison(c, first@, second@, diffs_view(out@)),
{
    let ghost n1 = first.len();
    let ghost n2 = second.len();
    let ea = collect_entries(c, first);
    let eb = collect_entries(c, second);
    let sa = stable_sort_by_key(&ea);
    let sb = stable_sort_by_key(&eb);
    proof {
        lemma_entries_valid(c, first@);
        lemma_entries_valid(c, second@);
        assert forall|t: int| 0 <= t < sa@.len() implies (#[trigger] sa@[t]).1 < first@.len() by {
            let e = sa@[t];
            sa@.lemma_filter_contains(has_key(e.0), t);
            assert(entries(c, first@).filter(has_key(e.0)).contains(e));
            entries(c, first@).lemma_filter_contains_rev(has_key(e.0), e);
        }
        assert forall|t: int| 0 <= t < sb@.len() implies (#[trigger] sb@[t]).1 < second@.len() by {
            let e = sb@[t];
            sb@.lemma_filter_contains(has_key(e.0), t);
            assert(entries(c, second@).filter(has_key(e.0)).contains(e));
            entries(c, second@).lemma_filter_contains_rev(has_key(e.0), e);
        }
    }
    let mut out: Vec<(Key, String)> = Vec::new();
    let ghost mut ks: Seq<Key> = Seq::empty();
    let mut i: usize = 0;
    let mut j: usize = 0;
    proof {
        assert(diffs_view(out@) =~= report_for_keys(c, first@, second@, ks));
    }
    while i < sa.len() || j < sb.len()
        invariant
            key_sorted(sa@),
            key_sorted(sb@),
            same_groups(sa@, entries(c, first@)),
            same_groups(sb@, entries(c, second@)),
            forall|t: int| 0 <= t < sa@.len() ==> (#[trigger] sa@[t]).1 < first@.len(),
            forall|t: int| 0 <= t < sb@.len() ==> (#[trigger] sb@[t]).1 < second@.len(),
            first@.len() <= usize::MAX,
            second@.len() <= usize::MAX,
            i <= sa@.len(),
            j <= sb@.len(),
            strictly_sorted(ks),
            ks.len() > 0 && i < sa@.len() ==> key_lt(ks.last(), sa@[i as int].0),
            ks.len() > 0 && j < sb@.len() ==> key_lt(ks.last(), sb@[j as int].0),
            forall|t: int| 0 <= t < i ==> ks.contains(#[trigger] sa@[t].0),
            forall|t: int| 0 <= t < j ==> ks.contains(#[trigger] sb@[t].0),
            forall|m: int|
                0 <= m < ks.len() ==> (exists|t: int| 0 <= t < i && sa@[t].0 == #[trigger] ks[m]) || (
                exists|t: int| 0 <= t < j && sb@[t].0 == ks[m]),
            diffs_view(out@) == report_for_keys(c, first@, second@, ks),
        decreases sa@.len() - i + sb@.len() - j,
    {
        let k = if i < sa.len() && (j >= sb.len() || sa[i].0.precedes_or_equals(&sb[j].0)) {
            sa[i].0
        } else {
            sb[j].0
        };
        proof {
            if i < sa@.len() {
                lemma_key_order(k, sa@[i as int].0, k);
            }
            if j < sb@.len() {
                lemma_key_order(k, sb@[j as int].0, k);
            }
        }
        let mut i2 = i;
        while i2 < sa.len() && sa[i2].0 == k
            invariant
                i <= i2 <= sa@.len(),
                forall|t: int| i <= t < i2 ==> (#[trigger] sa@[t]).0 == k,
            decreases sa@.len() - i2,
        {
            i2 += 1;
        }
        let mut j2 = j;
        while j2 < sb.len() && sb[j2].0 == k
            invariant
                j <= j2 <= sb@.len(),
                forall|t: int| j <= t < j2 ==> (#[trigger] sb@[t]).0 == k,
            decreases sb@.len() - j2,
        {
            j2 += 1;
        }
        proof {
            // everything already reported is below k
            assert forall|m: int| 0 <= m < ks.len() implies key_lt(#[trigger] ks[m], k) by {
                if m < ks.len() - 1 {
                    assert(key_lt(ks[m], ks.last()));
                    lemma_key_order(ks[m], ks.last(), k);
                }
            }
            assert forall|t: int| 0 <= t < i implies key_lt(#[trigger] sa@[t].0, k) by {
                let m = choose|m: int| 0 <= m < ks.len() && ks[m] == sa@[t].0;
            }
            assert forall|t: int| 0 <= t < j implies key_lt(#[trigger] sb@[t].0, k) by {
                let m = choose|m: int| 0 <= m < ks.len() && ks[m] == sb@[t].0;
            }
            if i2 < sa@.len() {
                if i2 > i {
                    assert(key_le(sa@[i2 - 1].0, sa@[i2 as int].0));
                }
                lemma_key_order(k, sa@[i2 as int].0, k);
            }
            if j2 < sb@.len() {
                if j2 > j {
                    assert(key_le(sb@[j2 - 1].0, sb@[j2 as int].0));
                }
                lemma_key_order(k, sb@[j2 as int].0, k);
            }
            lemma_block_is_group(sa@, i as int, i2 as int, k);
            lemma_block_is_group(sb@, j as int, j2 as int, k);
            lemma_entries_group(c, first@, k);
            lemma_entries_group(c, second@, k);
            assert(sa@.subrange(i as int, i2 as int).map_values(row_at(first@)) == rows_with_key(c, first@, k));
            assert(sb@.subrange(j as int, j2 as int).map_values(row_at(second@)) == rows_with_key(c, second@, k));
        }
        push_key_diffs(&mut out, c, k, first, &sa, i, i2, second, &sb, j, j2);
        proof {
            lemma_report_push(c, first@, second@, ks, k);
            let old_ks = ks;
            ks = ks.push(k);
            assert forall|p: int, q: int| 0 <= p < q < ks.len() implies key_lt(#[trigger] ks[p], #[trigger] ks[q]) by {
                if q < old_ks.len() {
                    assert(ks[p] == old_ks[p] && ks[q] == old_ks[q]);
                } else {
                    assert(ks[p] == old_ks[p]);
                }
            }
            assert forall|t: int| 0 <= t < i2 implies ks.contains(#[trigger] sa@[t].0) by {
                if t < i {
                    let m = choose|m: int| 0 <= m < old_ks.len() && old_ks[m] == sa@[t].0;
                    assert(ks[m] == old_ks[m]);
                } else {
                    assert(ks[old_ks.len() as int] == k);
                }
            }
            assert forall|t: int| 0 <= t < j2 implies ks.contains(#[trigger] sb@[t].0) by {
                if t < j {
                    let m = choose|m: int| 0 <= m < old_ks.len() && old_ks[m] == sb@[t].0;
                    assert(ks[m] == old_ks[m]);
                } else {
                    assert(ks[old_ks.len() as int] == k);
                }
            }
            assert forall|m: int|
                0 <= m < ks.len() implies (exists|t: int| 0 <= t < i2 && sa@[t].0 == #[trigger] ks[m]) || (
                exists|t: int| 0 <= t < j2 && sb@[t].0 == ks[m]) by {
                if m < old_ks.len() {
                    assert(ks[m] == old_ks[m]);
                } else if i2 > i {
                    assert(sa@[i as int].0 == ks[m]);
                } else {
                    assert(sb@[j as int].0 == ks[m]);
                }
            }
        }
        i = i2;
        j = j2;
    }
    proof {
        assert forall|k: Key| ks.to_set().contains(k) <==> key_set(c, first@, second@).contains(k) by {
            if ks.to_set().contains(k) {
                let m = choose|m: int| 0 <= m < ks.len() && ks[m] == k;
                if exists|t: int| 0 <= t < i && sa@[t].0 == ks[m] {
                    let t = choose|t: int| 0 <= t < i && sa@[t].0 == ks[m];
                    sa@.lemma_filter_contains(has_key(k), t);
                    entries(c, first@).lemma_filter_contains_rev(has_key(k), sa@[t]);
                    let u = choose|u: int| 0 <= u < entries(c, first@).len() && entries(c, first@)[u] == sa@[t];
                    let e = entries(c, first@)[u];
                    assert(counted(c, first@[e.1 as int]) && first@[e.1 as int].key == k);
                } else {
                    let t = choose|t: int| 0 <= t < j && sb@[t].0 == ks[m];
                    sb@.lemma_filter_contains(has_key(k), t);
                    entries(c, second@).lemma_filter_contains_rev(has_key(k), sb@[t]);
                    let u = choose|u: int| 0 <= u < entries(c, second@).len() && entries(c, second@)[u] == sb@[t];
                    let e = entries(c, second@)[u];
                    assert(counted(c, second@[e.1 as int]) && second@[e.1 as int].key == k);
                }
            }
            if key_set(c, first@, second@).contains(k) {
                if exists|r: int| 0 <= r < first@.len() && counted(c, first@[r]) && first@[r].key == k {
                    let r = choose|r: int| 0 <= r < first@.len() && counted(c, first@[r]) && first@[r].key == k;
                    let e: Entry = (k, r as usize);
                    assert(entries(c, first@).contains(e));
                    let u = choose|u: int| 0 <= u < entries(c, first@).len() && entries(c, first@)[u] == e;
                    entries(c, first@).lemma_filter_contains(has_key(k), u);
                    assert(sa@.filter(has_key(k)).contains(e));
                    sa@.lemma_filter_contains_rev(has_key(k), e);
                    let t = choose|t: int| 0 <= t < sa@.len() && sa@[t] == e;
                    assert(ks.contains(sa@[t].0));
                } else {
                    let r = choose|r: int| 0 <= r < second@.len() && counted(c, second@[r]) && second@[r].key == k;
                    let e: Entry = (k, r as usize);
                    assert(entries(c, second@).contains(e));
                    let u = choose|u: int| 0 <= u < entries(c, second@).len() && entries(c, second@)[u] == e;
                    entries(c, second@).lemma_filter_contains(has_key(k), u);
                    assert(sb@.filter(has_key(k)).contains(e));
                    sb@.lemma_filter_contains_rev(has_key(k), e);
                    let t = choose|t: int| 0 <= t < sb@.len() && sb@[t] == e;
                    assert(ks.contains(sb@[t].0));
                }
            }
        }
        assert(ks.to_set() =~= key_set(c, first@, second@));
    }
    out
}

/// Compares two motion-vector dumps on their endpoint coordinates, zero-size
/// vectors left out, and returns their differences sorted by key.
pub fn compare_frames(first: &Vec<MvRow>, second: &Vec<MvRow>) -> (out: Vec<(Key, String)>)
    ensures
        is_comparison(Columns::Endpoints, first@, second@, diffs_view(out@)),
{
    compare_by_columns(Columns::Endpoints, first, second)
}

/// Compares two motion-vector dumps on their block size and motion values,
/// every vector taking part, and returns their differences sorted by key.
pub fn compare_value_columns(first: &Vec<MvRow>, second: &Vec<MvRow>) -> (out: Vec<(Key, String)>)
    ensures
        is_comparison(Columns::Values, first@, second@, diffs_view(out@)),
{
    compare_by_columns(Columns::Values, first, second)
}

/// Text of a comparison report: one line per difference, or a single line
/// saying that there is none.
pub open spec fn results_text(d: Seq<(Key, Seq<char>)>) -> Seq<char> {
    if d.len() == 0 {
        "No differences found in frames in all frames.\n"@
    } else {
        d.map_values(|x: (Key, Seq<char>)| x.1 + "\n"@).flatten()
    }
}

/// Renders the differences found by `compare_frames` as the text of the
/// comparison result file.
pub fn format_results(differences: &Vec<(Key, String)>) -> (res: String)
    ensures
        res@ == results_text(diffs_view(differences@)),
{
    let mut content = String::new();
    if differences.len() == 0 {
        content.append("No differences found in frames in all frames.\n");
        return content;
    }
    let ghost line = |x: (Key, Seq<char>)| x.1 + "\n"@;
    let ghost d = diffs_view(differences@);
    let mut i: usize = 0;
    proof {
        assert(d.take(0).map_values(line) =~= Seq::<Seq<char>>::empty());
        assert(content@ =~= d.take(0).map_values(line).flatten());
    }
    while i < differences.len()
        invariant
            i <= differences@.len(),
            d == diffs_view(differences@),
            line == (|x: (Key, Seq<char>)| x.1 + "\n"@),
            content@ == d.take(i as int).map_values(line).flatten(),
        decreases differences@.len() - i,
    {
        content.append(differences[i].1.as_str());
        content.append("\n");
        proof {
            assert(d.take(i + 1).map_values(line) =~= d.take(i as int).map_values(line).push(line(d[i as int])));
            d.take(i as int).map_values(line).lemma_flatten_push(line(d[i as int]));
            assert(content@ =~= d.take(i + 1).map_values(line).flatten());
        }
        i += 1;
    }
    proof {
        assert(d.take(i as int) =~= d);
    }
    content
}

// ---------------------------------------------------------------------------
// Laws of the comparison.

proof fn lemma_flatten_empty<A>(s: Seq<Seq<A>>)
    requires
        forall|i: int| 0 <= i < s.len() ==> (#[trigger] s[i]).len() == 0,
    ensures
        s.flatten() == Seq::<A>::empty(),
    decreases s.len(),
{
    if s.len() > 0 {
        lemma_flatten_empty(s.drop_first());
        assert(s.flatten() =~= Seq::<A>::empty());
    }
}

proof fn lemma_flatten_same_lengths<A>(s: Seq<Seq<A>>, r: Seq<Seq<A>>)
    requires
        s.len() == r.len(),
        forall|i: int| 0 <= i < s.len() ==> (#[trigger] s[i]).len() == r[i].len(),
    ensures
        s.flatten().len() == r.flatten().len(),
    decreases s.len(),
{
    if s.len() > 0 {
        lemma_flatten_same_lengths(s.drop_first(), r.drop_first());
    }
}

proof fn lemma_flatten_keys<A>(s: Seq<Seq<(Key, A)>>, k: Key)
    requires
        forall|i: int, j: int| 0 <= i < s.len() && 0 <= j < s[i].len() ==> (#[trigger] s[i][j]).0 == k,
    ensures
        forall|t: int| 0 <= t < s.flatten().len() ==> (#[trigger] s.flatten()[t]).0 == k,
    decreases s.len(),
{
    if s.len() > 0 {
        let r = s.drop_first();
        assert forall|i: int, j: int| 0 <= i < r.len() && 0 <= j < r[i].len() implies (#[trigger] r[i][j]).0 == k by {
            assert(r[i] == s[i + 1]);
        }
        lemma_flatten_keys(r, k);
        assert forall|t: int| 0 <= t < s.flatten().len() implies (#[trigger] s.flatten()[t]).0 == k by {
            if t < s[0].len() {
                assert(s.flatten()[t] == s[0][t]);
            } else {
                assert(s.flatten()[t] == r.flatten()[t - s[0].len()]);
            }
        }
    }
}

/// Every report line of key `k` carries `k`.
proof fn lemma_key_diffs_keyed(c: Columns, k: Key, f: Seq<MvRow>, s: Seq<MvRow>)
    ensures
        forall|t: int| 0 <= t < key_diffs(c, k, f, s).len() ==> (#[trigger] key_diffs(c, k, f, s)[t]).0 == k,
{
    if !(f.len() > 0 && s.len() == 0) && !(f.len() == 0 && s.len() > 0) {
        let rows = Seq::new(max_len(f.len() as int, s.len() as int) as nat, |t: int| row_diffs(c, k, t, f, s));
        lemma_flatten_keys(rows, k);
    }
}

/// Two strictly sorted key sequences with the same elements are equal.
proof fn lemma_strictly_sorted_unique(a: Seq<Key>, b: Seq<Key>)
    requires
        strictly_sorted(a),
        strictly_sorted(b),
        a.to_set() == b.to_set(),
    ensures
        a == b,
    decreases a.len() + b.len(),
{
    if a.len() > 0 && b.len() > 0 {
        assert(a.to_set().contains(a[0]));
        assert(b.to_set().contains(b[0]));
        let i = choose|i: int| 0 <= i < b.len() && b[i] == a[0];
        let j = choose|j: int| 0 <= j < a.len() && a[j] == b[0];
        if i > 0 {
            assert(key_lt(b[0], b[i]));
            if j > 0 {
                assert(key_lt(a[0], a[j]));
                lemma_key_order(a[0], b[0], a[0]);
            }
        }
        if j > 0 {
            assert(key_lt(a[0], a[j]));
            lemma_key_order(a[0], b[0], a[0]);
        }
        assert(a[0] == b[0]);
        let a1 = a.drop_first();
        let b1 = b.drop_first();
        assert forall|x: Key| a1.to_set().contains(x) <==> b1.to_set().contains(x) by {
            if a1.to_set().contains(x) {
                let p = choose|p: int| 0 <= p < a1.len() && a1[p] == x;
                assert(key_lt(a[0], a[p + 1]));
                assert(b.to_set().contains(x));
                let q = choose|q: int| 0 <= q < b.len() && b[q] == x;
                assert(q != 0);
                assert(b1[q - 1] == x);
            }
            if b1.to_set().contains(x) {
                let p = choose|p: int| 0 <= p < b1.len() && b1[p] == x;
                assert(key_lt(b[0], b[p + 1]));
                assert(a.to_set().contains(x));
                let q = choose|q: int| 0 <= q < a.len() && a[q] == x;
                assert(q != 0);
                assert(a1[q - 1] == x);
            }
        }
        assert(a1.to_set() =~= b1.to_set());
        lemma_strictly_sorted_unique(a1, b1);
        assert forall|t: int| 0 <= t < a.len() implies a[t] == b[t] by {
            if t > 0 {
                assert(a[t] == a1[t - 1]);
                assert(b[t] == b1[t - 1]);
            }
        }
        assert(a =~= b);
    } else if a.len() > 0 {
        assert(a.to_set().contains(a[0]));
    } else if b.len() > 0 {
        assert(b.to_set().contains(b[0]));
    } else {
        assert(a =~= b);
    }
}

proof fn lemma_report_sorted(c: Columns, first: Seq<MvRow>, second: Seq<MvRow>, ks: Seq<Key>)
    requires
        strictly_sorted(ks),
    ensures
        forall|t: int| 0 <= t < report_for_keys(c, first, second, ks).len() ==> ks.contains(
            (#[trigger] report_for_keys(c, first, second, ks)[t]).0,
        ),
        forall|p: int, q: int|
            0 <= p < q < report_for_keys(c, first, second, ks).len() ==> key_le(
                (#[trigger] report_for_keys(c, first, second, ks)[p]).0,
                (#[trigger] report_for_keys(c, first, second, ks)[q]).0,
            ),
    decreases ks.len(),
{
    if ks.len() == 0 {
        assert(ks.map_values(diffs_of_key(c, first, second)) =~= Seq::<Seq<(Key, Seq<char>)>>::empty());
    } else {
        let pre = ks.drop_last();
        let k = ks.last();
        assert(pre.push(k) =~= ks);
        lemma_report_sorted(c, first, second, pre);
        lemma_report_push(c, first, second, pre, k);
        let x = report_for_keys(c, first, second, pre);
        let y = diffs_of_key(c, first, second)(k);
        lemma_key_diffs_keyed(c, k, rows_with_key(c, first, k), rows_with_key(c, second, k));
        let r = report_for_keys(c, first, second, ks);
        assert(r == x + y);
        assert forall|t: int| 0 <= t < r.len() implies ks.contains((#[trigger] r[t]).0) by {
            if t < x.len() {
                let m = choose|m: int| 0 <= m < pre.len() && pre[m] == x[t].0;
                assert(ks[m] == pre[m]);
            } else {
                assert(r[t] == y[t - x.len()]);
                assert(ks[ks.len() - 1] == k);
            }
        }
        assert forall|p: int, q: int| 0 <= p < q < r.len() implies key_le((#[trigger] r[p]).0, (#[trigger] r[q]).0) by {
            if q < x.len() {
                assert(r[p] == x[p] && r[q] == x[q]);
            } else if p < x.len() {
                let m = choose|m: int| 0 <= m < pre.len() && pre[m] == x[p].0;
                assert(key_lt(ks[m], ks[ks.len() - 1]));
                assert(r[q] == y[q - x.len()]);
            } else {
                assert(r[p] == y[p - x.len()] && r[q] == y[q - x.len()]);
            }
        }
    }
}

/// The comparison report lists its differences in ascending key order, and
/// every difference concerns a key of one of the two dumps.
pub proof fn lemma_comparison_sorted(c: Columns, first: Seq<MvRow>, second: Seq<MvRow>, out: Seq<(Key, Seq<char>)>)
    requires
        is_comparison(c, first, second, out),
    ensures
        forall|t: int| 0 <= t < out.len() ==> key_set(c, first, second).contains((#[trigger] out[t]).0),
        forall|p: int, q: int| 0 <= p < q < out.len() ==> key_le((#[trigger] out[p]).0, (#[trigger] out[q]).0),
{
    let ks = choose|ks: Seq<Key>|
        strictly_sorted(ks) && ks.to_set() == key_set(c, first, second) && out == #[trigger] report_for_keys(c, first, second, ks);
    lemma_report_sorted(c, first, second, ks);
    assert forall|t: int| 0 <= t < out.len() implies key_set(c, first, second).contains((#[trigger] out[t]).0) by {
        assert(ks.contains(out[t].0));
        assert(ks.to_set().contains(out[t].0));
    }
}

/// None of the columns `c` of the row is NaN.
pub open spec fn row_has_no_nan(c: Columns, r: MvRow) -> bool {
    match c {
        Columns::Endpoints => {
            &&& r.src_x.eq_class is Some
            &&& r.src_y.eq_class is Some
            &&& r.dst_x.eq_class is Some
            &&& r.dst_y.eq_class is Some
        },
        Columns::Values => {
            &&& r.w.eq_class is Some
            &&& r.h.eq_class is Some
            &&& r.motion_x.eq_class is Some
            &&& r.motion_y.eq_class is Some
            &&& r.motion_scale.eq_class is Some
        },
    }
}

/// No value in the columns `c` of the dump is NaN.
pub open spec fn no_nan(c: Columns, rows: Seq<MvRow>) -> bool {
    forall|i: int| 0 <= i < rows.len() ==> row_has_no_nan(c, #[trigger] rows[i])
}

/// A dump compared with itself has no differences, provided none of the
/// compared values is NaN (NaN differs from itself).
pub proof fn lemma_self_comparison_clean(c: Columns, rows: Seq<MvRow>, out: Seq<(Key, Seq<char>)>)
    requires
        no_nan(c, rows),
        is_comparison(c, rows, rows, out),
    ensures
        out.len() == 0,
{
    let ks = choose|ks: Seq<Key>|
        strictly_sorted(ks) && ks.to_set() == key_set(c, rows, rows) && out == #[trigger] report_for_keys(c, rows, rows, ks);
    let parts = ks.map_values(diffs_of_key(c, rows, rows));
    assert forall|m: int| 0 <= m < parts.len() implies (#[trigger] parts[m]).len() == 0 by {
        let k = ks[m];
        let f = rows_with_key(c, rows, k);
        assert forall|t: int| 0 <= t < f.len() implies row_has_no_nan(c, #[trigger] f[t]) by {
            assert(f.contains(f[t]));
            rows.lemma_filter_contains_rev(keeps(c, k), f[t]);
        }
        let rd = Seq::new(max_len(f.len() as int, f.len() as int) as nat, |t: int| row_diffs(c, k, t, f, f));
        assert forall|t: int| 0 <= t < rd.len() implies (#[trigger] rd[t]).len() == 0 by {
            assert(row_has_no_nan(c, f[t]));
            assert(rd[t] =~= Seq::<(Key, Seq<char>)>::empty());
        }
        lemma_flatten_empty(rd);
    }
    lemma_flatten_empty(parts);
}

proof fn lemma_pair_diffs_len_symmetric(c: Columns, k: Key, a: MvRow, b: MvRow)
    ensures
        pair_diffs(c, k, a, b).len() == pair_diffs(c, k, b, a).len(),
{
}

/// The columns a comparison on `c` checks of a row, each with the name the
/// report gives it, in report order.
pub open spec fn compared_columns(c: Columns, r: MvRow) -> Seq<(Seq<char>, FloatField)> {
    match c {
        Columns::Endpoints => seq![("src_x"@, r.src_x), ("src_y"@, r.src_y), ("dst_x"@, r.dst_x), ("dst_y"@, r.dst_y)],
        Columns::Values => seq![
            ("w"@, r.w),
            ("h"@, r.h),
            ("motion_x"@, r.motion_x),
            ("motion_y"@, r.motion_y),
            ("motion_scale"@, r.motion_scale),
        ],
    }
}

/// Column `i` holds values that are not equal in rows `a` and `b`.
pub open spec fn column_differs(c: Columns, a: MvRow, b: MvRow, i: int) -> bool {
    !float_eq(compared_columns(c, a)[i].1, compared_columns(c, b)[i].1)
}

/// The report line saying that column `i` differs between `a` and `b`,
/// with both values.
pub open spec fn column_line(c: Columns, a: MvRow, b: MvRow, i: int) -> (Key, Seq<char>) {
    (a.key, differs_line(a.key, compared_columns(c, a)[i].0, compared_columns(c, a)[i].1.text@, compared_columns(c, b)[i].1.text@))
}

/// The line is the report line of a column that differs between `a` and
/// `b`.
pub open spec fn is_differing_column_line(c: Columns, a: MvRow, b: MvRow, l: (Key, Seq<char>)) -> bool {
    exists|i: int| 0 <= i < compared_columns(c, a).len() && column_differs(c, a, b, i) && l == #[trigger] column_line(c, a, b, i)
}

proof fn lemma_concat_lines(
    c: Columns,
    a: MvRow,
    b: MvRow,
    x: Seq<(Key, Seq<char>)>,
    y: Seq<(Key, Seq<char>)>,
)
    requires
        forall|t: int| 0 <= t < x.len() ==> is_differing_column_line(c, a, b, #[trigger] x[t]),
        forall|t: int| 0 <= t < y.len() ==> is_differing_column_line(c, a, b, #[trigger] y[t]),
    ensures
        forall|t: int| 0 <= t < (x + y).len() ==> is_differing_column_line(c, a, b, #[trigger] (x + y)[t]),
        forall|e: (Key, Seq<char>)| x.contains(e) ==> #[trigger] (x + y).contains(e),
        forall|e: (Key, Seq<char>)| y.contains(e) ==> #[trigger] (x + y).contains(e),
{
    assert forall|t: int| 0 <= t < (x + y).len() implies is_differing_column_line(c, a, b, #[trigger] (x + y)[t]) by {
        if t < x.len() {
            assert((x + y)[t] == x[t]);
        } else {
            assert((x + y)[t] == y[t - x.len()]);
        }
    }
    assert forall|e: (Key, Seq<char>)| x.contains(e) implies #[trigger] (x + y).contains(e) by {
        let t = choose|t: int| 0 <= t < x.len() && x[t] == e;
        assert((x + y)[t] == e);
    }
    assert forall|e: (Key, Seq<char>)| y.contains(e) implies #[trigger] (x + y).contains(e) by {
        let t = choose|t: int| 0 <= t < y.len() && y[t] == e;
        assert((x + y)[x.len() + t] == e);
    }
}

proof fn lemma_field_diff_line(c: Columns, a: MvRow, b: MvRow, i: int)
    requires
        a.key == b.key,
        0 <= i < compared_columns(c, a).len(),
    ensures
        ({
            let f = field_diff(a.key, compared_columns(c, a)[i].0, compared_columns(c, a)[i].1, compared_columns(c, b)[i].1);
            &&& forall|t: int| 0 <= t < f.len() ==> is_differing_column_line(c, a, b, #[trigger] f[t])
            &&& column_differs(c, a, b, i) ==> f.contains(column_line(c, a, b, i))
        }),
{
    let f = field_diff(a.key, compared_columns(c, a)[i].0, compared_columns(c, a)[i].1, compared_columns(c, b)[i].1);
    if column_differs(c, a, b, i) {
        assert(f[0] == column_line(c, a, b, i));
        assert(is_differing_column_line(c, a, b, f[0]));
    }
}

/// The report lines of two rows at the same position are those of the
/// columns whose values differ.
proof fn lemma_pair_diffs_lines(c: Columns, a: MvRow, b: MvRow)
    requires
        a.key == b.key,
    ensures
        forall|t: int| 0 <= t < pair_diffs(c, a.key, a, b).len() ==> is_differing_column_line(c, a, b, #[trigger] pair_diffs(c, a.key, a, b)[t]),
        forall|i: int| 0 <= i < compared_columns(c, a).len() && column_differs(c, a, b, i) ==> pair_diffs(c, a.key, a, b).contains(#[trigger] column_line(c, a, b, i)),
{
    let k = a.key;
    let ca = compared_columns(c, a);
    let cb = compared_columns(c, b);
    lemma_field_diff_line(c, a, b, 0);
    lemma_field_diff_line(c, a, b, 1);
    lemma_field_diff_line(c, a, b, 2);
    lemma_field_diff_line(c, a, b, 3);
    let f0 = field_diff(k, ca[0].0, ca[0].1, cb[0].1);
    let f1 = field_diff(k, ca[1].0, ca[1].1, cb[1].1);
    let f2 = field_diff(k, ca[2].0, ca[2].1, cb[2].1);
    let f3 = field_diff(k, ca[3].0, ca[3].1, cb[3].1);
    lemma_concat_lines(c, a, b, f0, f1);
    lemma_concat_lines(c, a, b, f0 + f1, f2);
    lemma_concat_lines(c, a, b, f0 + f1 + f2, f3);
    match c {
        Columns::Endpoints => {
            assert(pair_diffs(c, k, a, b) == f0 + f1 + f2 + f3);
        },
        Columns::Values => {
            lemma_field_diff_line(c, a, b, 4);
            let f4 = field_diff(k, ca[4].0, ca[4].1, cb[4].1);
            lemma_concat_lines(c, a, b, f0 + f1 + f2 + f3, f4);
            assert(pair_diffs(c, k, a, b) == f0 + f1 + f2 + f3 + f4);
        },
    }
}

/// Comparing two one-vector dumps whose vectors share a key (and take
/// part): the report names, with both values, exactly the compared columns
/// whose values differ. Each such column has its line, and every line is
/// one of them.
pub proof fn lemma_one_vector_report(c: Columns, a: MvRow, b: MvRow, out: Seq<(Key, Seq<char>)>)
    requires
        a.key == b.key,
        counted(c, a),
        counted(c, b),
        is_comparison(c, seq![a], seq![b], out),
    ensures
        forall|i: int| 0 <= i < compared_columns(c, a).len() && column_differs(c, a, b, i) ==> out.contains(#[trigger] column_line(c, a, b, i)),
        forall|t: int| 0 <= t < out.len() ==> is_differing_column_line(c, a, b, #[trigger] out[t]),
{
    let k = a.key;
    let fs = seq![a];
    let ss = seq![b];
    let ks = choose|ks: Seq<Key>|
        strictly_sorted(ks) && ks.to_set() == key_set(c, fs, ss) && out == #[trigger] report_for_keys(c, fs, ss, ks);
    assert(fs[0] == a && ss[0] == b);
    assert(key_set(c, fs, ss) =~= seq![k].to_set()) by {
        assert forall|x: Key| #[trigger] key_set(c, fs, ss).contains(x) <==> seq![k].to_set().contains(x) by {
            if x == k {
                assert(seq![k][0] == k);
            }
            if seq![k].to_set().contains(x) {
                assert(seq![k].contains(x));
            }
        }
    }
    assert(strictly_sorted(seq![k]));
    lemma_strictly_sorted_unique(ks, seq![k]);
    reveal(Seq::filter);
    assert(rows_with_key(c, fs, k) =~= fs) by {
        assert(fs.drop_last() =~= Seq::<MvRow>::empty());
        assert(keeps(c, k)(a));
    }
    assert(rows_with_key(c, ss, k) =~= ss) by {
        assert(ss.drop_last() =~= Seq::<MvRow>::empty());
        assert(keeps(c, k)(b));
    }
    let rd = Seq::new(max_len(1, 1) as nat, |t: int| row_diffs(c, k, t, fs, ss));
    assert(key_diffs(c, k, fs, ss) == rd.flatten());
    assert(rd.flatten() =~= pair_diffs(c, k, a, b)) by {
        assert(rd[0] == pair_diffs(c, k, a, b));
        assert(rd.drop_first() =~= Seq::<Seq<(Key, Seq<char>)>>::empty());
        assert(rd.drop_first().flatten() =~= Seq::<(Key, Seq<char>)>::empty());
    }
    let parts = seq![k].map_values(diffs_of_key(c, fs, ss));
    assert(parts.flatten() =~= pair_diffs(c, k, a, b)) by {
        assert(parts[0] == pair_diffs(c, k, a, b));
        assert(parts.drop_first() =~= Seq::<Seq<(Key, Seq<char>)>>::empty());
        assert(parts.drop_first().flatten() =~= Seq::<(Key, Seq<char>)>::empty());
    }
    assert(out == pair_diffs(c, k, a, b));
    lemma_pair_diffs_lines(c, a, b);
}

/// The report of two dumps is unique: a comparison of the same dumps on
/// the same columns always gives the same differences in the same order.
pub proof fn lemma_comparison_unique(
    c: Columns,
    a: Seq<MvRow>,
    b: Seq<MvRow>,
    o1: Seq<(Key, Seq<char>)>,
    o2: Seq<(Key, Seq<char>)>,
)
    requires
        is_comparison(c, a, b, o1),
        is_comparison(c, a, b, o2),
    ensures
        o1 == o2,
{
    let ks1 = choose|ks: Seq<Key>|
        strictly_sorted(ks) && ks.to_set() == key_set(c, a, b) && o1 == #[trigger] report_for_keys(c, a, b, ks);
    let ks2 = choose|ks: Seq<Key>|
        strictly_sorted(ks) && ks.to_set() == key_set(c, a, b) && o2 == #[trigger] report_for_keys(c, a, b, ks);
    lemma_strictly_sorted_unique(ks1, ks2);
}

/// Comparing `a` with `b` reports as many differences as comparing `b` with
/// `a`.
pub proof fn lemma_comparison_count_symmetric(
    c: Columns,
    a: Seq<MvRow>,
    b: Seq<MvRow>,
    ab: Seq<(Key, Seq<char>)>,
    ba: Seq<(Key, Seq<char>)>,
)
    requires
        is_comparison(c, a, b, ab),
        is_comparison(c, b, a, ba),
    ensures
        ab.len() == ba.len(),
{
    let ks1 = choose|ks: Seq<Key>|
        strictly_sorted(ks) && ks.to_set() == key_set(c, a, b) && ab == #[trigger] report_for_keys(c, a, b, ks);
    let ks2 = choose|ks: Seq<Key>|
        strictly_sorted(ks) && ks.to_set() == key_set(c, b, a) && ba == #[trigger] report_for_keys(c, b, a, ks);
    assert(key_set(c, a, b) =~= key_set(c, b, a));
    lemma_strictly_sorted_unique(ks1, ks2);
    let p1 = ks1.map_values(diffs_of_key(c, a, b));
    let p2 = ks1.map_values(diffs_of_key(c, b, a));
    assert forall|m: int| 0 <= m < p1.len() implies (#[trigger] p1[m]).len() == p2[m].len() by {
        let k = ks1[m];
        let f = rows_with_key(c, a, k);
        let s = rows_with_key(c, b, k);
        if !(f.len() > 0 && s.len() == 0) && !(f.len() == 0 && s.len() > 0) {
            let r1 = Seq::new(max_len(f.len() as int, s.len() as int) as nat, |t: int| row_diffs(c, k, t, f, s));
            let r2 = Seq::new(max_len(s.len() as int, f.len() as int) as nat, |t: int| row_diffs(c, k, t, s, f));
            assert forall|t: int| 0 <= t < r1.len() implies (#[trigger] r1[t]).len() == r2[t].len() by {
                if t < f.len() && t < s.len() {
                    lemma_pair_diffs_len_symmetric(c, k, f[t], s[t]);
                }
            }
            lemma_flatten_same_lengths(r1, r2);
        }
    }
    lemma_flatten_same_lengths(p1, p2);
}

/// `m2` is the report line `m1` of key `k` told from the other side: first
/// and second file exchanged, and a differing column's two values swapped.
pub open spec fn mirrored_line(k: Key, m1: Seq<char>, m2: Seq<char>) -> bool {
    ||| exists|b: bool| m1 == #[trigger] missing_line(k, b) && m2 == missing_line(k, !b)
    ||| exists|i: Seq<char>, b: bool| m1 == #[trigger] extra_line(k, i, b) && m2 == extra_line(k, i, !b)
    ||| exists|n: Seq<char>, x: Seq<char>, y: Seq<char>|
        m1 == #[trigger] differs_line(k, n, x, y) && m2 == differs_line(k, n, y, x)
}

/// `r` is the report `s` told from the other side, line by line: the same
/// keys in the same order, each line mirrored.
pub open spec fn mirrored_report(s: Seq<(Key, Seq<char>)>, r: Seq<(Key, Seq<char>)>) -> bool {
    &&& s.len() == r.len()
    &&& forall|t: int| 0 <= t < s.len() ==> (#[trigger] r[t]).0 == s[t].0 && mirrored_line(s[t].0, s[t].1, r[t].1)
}

proof fn lemma_mirrored_concat(
    s1: Seq<(Key, Seq<char>)>,
    r1: Seq<(Key, Seq<char>)>,
    s2: Seq<(Key, Seq<char>)>,
    r2: Seq<(Key, Seq<char>)>,
)
    requires
        mirrored_report(s1, r1),
        mirrored_report(s2, r2),
    ensures
        mirrored_report(s1 + s2, r1 + r2),
{
    assert forall|t: int| 0 <= t < (s1 + s2).len() implies (#[trigger] (r1 + r2)[t]).0 == (s1 + s2)[t].0
        && mirrored_line((s1 + s2)[t].0, (s1 + s2)[t].1, (r1 + r2)[t].1) by {
        if t < s1.len() {
            assert((s1 + s2)[t] == s1[t] && (r1 + r2)[t] == r1[t]);
            assert(r1[t].0 == s1[t].0);
        } else {
            assert((s1 + s2)[t] == s2[t - s1.len()] && (r1 + r2)[t] == r2[t - s1.len()]);
            assert(r2[t - s1.len()].0 == s2[t - s1.len()].0);
        }
    }
}

proof fn lemma_mirrored_flatten(s: Seq<Seq<(Key, Seq<char>)>>, r: Seq<Seq<(Key, Seq<char>)>>)
    requires
        s.len() == r.len(),
        forall|i: int| 0 <= i < s.len() ==> mirrored_report(#[trigger] s[i], r[i]),
    ensures
        mirrored_report(s.flatten(), r.flatten()),
    decreases s.len(),
{
    if s.len() == 0 {
        assert(s.flatten() =~= Seq::<(Key, Seq<char>)>::empty());
        assert(r.flatten() =~= Seq::<(Key, Seq<char>)>::empty());
    } else {
        let s1 = s.drop_first();
        let r1 = r.drop_first();
        assert forall|i: int| 0 <= i < s1.len() implies mirrored_report(#[trigger] s1[i], r1[i]) by {
            assert(s1[i] == s[i + 1] && r1[i] == r[i + 1]);
        }
        lemma_mirrored_flatten(s1, r1);
        assert(mirrored_report(s[0], r[0]));
        lemma_mirrored_concat(s[0], r[0], s1.flatten(), r1.flatten());
    }
}

proof fn lemma_field_diff_mirrored(k: Key, name: Seq<char>, a: FloatField, b: FloatField)
    ensures
        mirrored_report(field_diff(k, name, a, b), field_diff(k, name, b, a)),
{
    if !float_eq(a, b) {
        let m1 = differs_line(k, name, a.text@, b.text@);
        let m2 = differs_line(k, name, b.text@, a.text@);
        assert(m1 == differs_line(k, name, a.text@, b.text@) && m2 == differs_line(k, name, b.text@, a.text@));
        assert(mirrored_line(k, m1, m2));
        assert(field_diff(k, name, a, b)[0] == (k, m1));
        assert(field_diff(k, name, b, a)[0] == (k, m2));
    } else {
        assert(float_eq(b, a) == float_eq(a, b));
    }
}

proof fn lemma_pair_diffs_mirrored(c: Columns, k: Key, a: MvRow, b: MvRow)
    ensures
        mirrored_report(pair_diffs(c, k, a, b), pair_diffs(c, k, b, a)),
{
    match c {
        Columns::Endpoints => {
            lemma_field_diff_mirrored(k, "src_x"@, a.src_x, b.src_x);
            lemma_field_diff_mirrored(k, "src_y"@, a.src_y, b.src_y);
            lemma_field_diff_mirrored(k, "dst_x"@, a.dst_x, b.dst_x);
            lemma_field_diff_mirrored(k, "dst_y"@, a.dst_y, b.dst_y);
            lemma_mirrored_concat(
                field_diff(k, "src_x"@, a.src_x, b.src_x),
                field_diff(k, "src_x"@, b.src_x, a.src_x),
                field_diff(k, "src_y"@, a.src_y, b.src_y),
                field_diff(k, "src_y"@, b.src_y, a.src_y),
            );
            lemma_mirrored_concat(
                field_diff(k, "src_x"@, a.src_x, b.src_x) + field_diff(k, "src_y"@, a.src_y, b.src_y),
                field_diff(k, "src_x"@, b.src_x, a.src_x) + field_diff(k, "src_y"@, b.src_y, a.src_y),
                field_diff(k, "dst_x"@, a.dst_x, b.dst_x),
                field_diff(k, "dst_x"@, b.dst_x, a.dst_x),
            );
            lemma_mirrored_concat(
                field_diff(k, "src_x"@, a.src_x, b.src_x) + field_diff(k, "src_y"@, a.src_y, b.src_y)
                    + field_diff(k, "dst_x"@, a.dst_x, b.dst_x),
                field_diff(k, "src_x"@, b.src_x, a.src_x) + field_diff(k, "src_y"@, b.src_y, a.src_y)
                    + field_diff(k, "dst_x"@, b.dst_x, a.dst_x),
                field_diff(k, "dst_y"@, a.dst_y, b.dst_y),
                field_diff(k, "dst_y"@, b.dst_y, a.dst_y),
            );
        },
        Columns::Values => {
            lemma_field_diff_mirrored(k, "w"@, a.w, b.w);
            lemma_field_diff_mirrored(k, "h"@, a.h, b.h);
            lemma_field_diff_mirrored(k, "motion_x"@, a.motion_x, b.motion_x);
            lemma_field_diff_mirrored(k, "motion_y"@, a.motion_y, b.motion_y);
            lemma_field_diff_mirrored(k, "motion_scale"@, a.motion_scale, b.motion_scale);
            let ab1 = field_diff(k, "w"@, a.w, b.w);
            let ba1 = field_diff(k, "w"@, b.w, a.w);
            let ab2 = ab1 + field_diff(k, "h"@, a.h, b.h);
            let ba2 = ba1 + field_diff(k, "h"@, b.h, a.h);
            lemma_mirrored_concat(ab1, ba1, field_diff(k, "h"@, a.h, b.h), field_diff(k, "h"@, b.h, a.h));
            let ab3 = ab2 + field_diff(k, "motion_x"@, a.motion_x, b.motion_x);
            let ba3 = ba2 + field_diff(k, "motion_x"@, b.motion_x, a.motion_x);
            lemma_mirrored_concat(ab2, ba2, field_diff(k, "motion_x"@, a.motion_x, b.motion_x), field_diff(k, "motion_x"@, b.motion_x, a.motion_x));
            let ab4 = ab3 + field_diff(k, "motion_y"@, a.motion_y, b.motion_y);
            let ba4 = ba3 + field_diff(k, "motion_y"@, b.motion_y, a.motion_y);
            lemma_mirrored_concat(ab3, ba3, field_diff(k, "motion_y"@, a.motion_y, b.motion_y), field_diff(k, "motion_y"@, b.motion_y, a.motion_y));
            lemma_mirrored_concat(
                ab4,
                ba4,
                field_diff(k, "motion_scale"@, a.motion_scale, b.motion_scale),
                field_diff(k, "motion_scale"@, b.motion_scale, a.motion_scale),
            );
        },
    }
}

proof fn lemma_key_diffs_mirrored(c: Columns, k: Key, f: Seq<MvRow>, s: Seq<MvRow>)
    ensures
        mirrored_report(key_diffs(c, k, f, s), key_diffs(c, k, s, f)),
{
    if f.len() > 0 && s.len() == 0 {
        assert(mirrored_line(k, missing_line(k, false), missing_line(k, !false)));
    } else if f.len() == 0 && s.len() > 0 {
        assert(mirrored_line(k, missing_line(k, true), missing_line(k, !true)));
    } else {
        let r1 = Seq::new(max_len(f.len() as int, s.len() as int) as nat, |t: int| row_diffs(c, k, t, f, s));
        let r2 = Seq::new(max_len(s.len() as int, f.len() as int) as nat, |t: int| row_diffs(c, k, t, s, f));
        assert forall|t: int| 0 <= t < r1.len() implies mirrored_report(#[trigger] r1[t], r2[t]) by {
            if t >= f.len() {
                let i = int_text(t);
                assert(mirrored_line(k, extra_line(k, i, false), extra_line(k, i, !false)));
                assert(r1[t][0] == (k, extra_line(k, i, false)));
                assert(r2[t][0] == (k, extra_line(k, i, true)));
            } else if t >= s.len() {
                let i = int_text(t);
                assert(mirrored_line(k, extra_line(k, i, true), extra_line(k, i, !true)));
                assert(r1[t][0] == (k, extra_line(k, i, true)));
                assert(r2[t][0] == (k, extra_line(k, i, false)));
            } else {
                lemma_pair_diffs_mirrored(c, k, f[t], s[t]);
            }
        }
        lemma_mirrored_flatten(r1, r2);
    }
}

/// Comparing the dumps the other way round gives the same report told from
/// the other side: line for line the same keys, with first and second file
/// exchanged and each differing column's two values swapped.
pub proof fn lemma_comparison_mirrored(
    c: Columns,
    a: Seq<MvRow>,
    b: Seq<MvRow>,
    ab: Seq<(Key, Seq<char>)>,
    ba: Seq<(Key, Seq<char>)>,
)
    requires
        is_comparison(c, a, b, ab),
        is_comparison(c, b, a, ba),
    ensures
        mirrored_report(ab, ba),
{
    let ks1 = choose|ks: Seq<Key>|
        strictly_sorted(ks) && ks.to_set() == key_set(c, a, b) && ab == #[trigger] report_for_keys(c, a, b, ks);
    let ks2 = choose|ks: Seq<Key>|
        strictly_sorted(ks) && ks.to_set() == key_set(c, b, a) && ba == #[trigger] report_for_keys(c, b, a, ks);
    assert(key_set(c, a, b) =~= key_set(c, b, a));
    lemma_strictly_sorted_unique(ks1, ks2);
    let p1 = ks1.map_values(diffs_of_key(c, a, b));
    let p2 = ks1.map_values(diffs_of_key(c, b, a));
    assert forall|m: int| 0 <= m < p1.len() implies mirrored_report(#[trigger] p1[m], p2[m]) by {
        let k = ks1[m];
        lemma_key_diffs_mirrored(c, k, rows_with_key(c, a, k), rows_with_key(c, b, k));
    }
    lemma_mirrored_flatten(p1, p2);
}

/// Selects the rows that are not zero-size.
pub open spec fn non_zero() -> spec_fn(MvRow) -> bool {
    |r: MvRow| !zero_size(r)
}

proof fn lemma_filter_non_zero_keeps(rows: Seq<MvRow>, k: Key)
    ensures
        rows.filter(non_zero()).filter(keeps(Columns::Endpoints, k)) == rows.filter(keeps(Columns::Endpoints, k)),
    decreases rows.len(),
{
    reveal(Seq::filter);
    if rows.len() > 0 {
        let p = rows.drop_last();
        lemma_filter_non_zero_keeps(p, k);
        let x = rows.last();
        if non_zero()(x) {
            assert(rows.filter(non_zero()) == p.filter(non_zero()).push(x));
            assert(rows.filter(non_zero()).drop_last() =~= p.filter(non_zero()));
        } else {
            assert(rows.filter(non_zero()) == p.filter(non_zero()));
            assert(!keeps(Columns::Endpoints, k)(x));
        }
    }
}

proof fn lemma_key_set_non_zero(first: Seq<MvRow>, second: Seq<MvRow>)
    ensures
        key_set(Columns::Endpoints, first.filter(non_zero()), second.filter(non_zero())) == key_set(Columns::Endpoints, first, second),
{
    let f2 = first.filter(non_zero());
    let s2 = second.filter(non_zero());
    assert forall|k: Key| #[trigger] key_set(Columns::Endpoints, f2, s2).contains(k) <==> key_set(Columns::Endpoints, first, second).contains(k) by {
        if exists|i: int| 0 <= i < f2.len() && !zero_size(f2[i]) && f2[i].key == k {
            let i = choose|i: int| 0 <= i < f2.len() && !zero_size(f2[i]) && f2[i].key == k;
            assert(f2.contains(f2[i]));
            first.lemma_filter_contains_rev(non_zero(), f2[i]);
        }
        if exists|i: int| 0 <= i < s2.len() && !zero_size(s2[i]) && s2[i].key == k {
            let i = choose|i: int| 0 <= i < s2.len() && !zero_size(s2[i]) && s2[i].key == k;
            assert(s2.contains(s2[i]));
            second.lemma_filter_contains_rev(non_zero(), s2[i]);
        }
        if exists|i: int| 0 <= i < first.len() && !zero_size(first[i]) && first[i].key == k {
            let i = choose|i: int| 0 <= i < first.len() && !zero_size(first[i]) && first[i].key == k;
            first.lemma_filter_contains(non_zero(), i);
            assert(f2.contains(first[i]));
        }
        if exists|i: int| 0 <= i < second.len() && !zero_size(second[i]) && second[i].key == k {
            let i = choose|i: int| 0 <= i < second.len() && !zero_size(second[i]) && second[i].key == k;
            second.lemma_filter_contains(non_zero(), i);
            assert(s2.contains(second[i]));
        }
    }
    assert(key_set(Columns::Endpoints, f2, s2) =~= key_set(Columns::Endpoints, first, second));
}

/// Zero-size vectors play no part in a comparison of endpoints: the report
/// of two dumps is the report of the dumps without their zero-size vectors.
pub proof fn lemma_zero_size_ignored(first: Seq<MvRow>, second: Seq<MvRow>, out: Seq<(Key, Seq<char>)>)
    requires
        is_comparison(Columns::Endpoints, first, second, out),
    ensures
        is_comparison(Columns::Endpoints, first.filter(non_zero()), second.filter(non_zero()), out),
{
    let ks = choose|ks: Seq<Key>|
        strictly_sorted(ks) && ks.to_set() == key_set(Columns::Endpoints, first, second) && out == #[trigger] report_for_keys(Columns::Endpoints, first, second, ks);
    let f2 = first.filter(non_zero());
    let s2 = second.filter(non_zero());
    lemma_key_set_non_zero(first, second);
    assert forall|k: Key| #[trigger] diffs_of_key(Columns::Endpoints, f2, s2)(k) == diffs_of_key(Columns::Endpoints, first, second)(k) by {
        lemma_filter_non_zero_keeps(first, k);
        lemma_filter_non_zero_keeps(second, k);
    }
    assert(diffs_of_key(Columns::Endpoints, f2, s2) =~= diffs_of_key(Columns::Endpoints, first, second));
    assert(report_for_keys(Columns::Endpoints, f2, s2, ks) == report_for_keys(Columns::Endpoints, first, second, ks));
}


/// Selects the list-0 (backward reference) rows.
pub open spec fn list0() -> spec_fn(MvRow) -> bool {
    |r: MvRow| r.key.source == -1
}

/// The rows of a dump a comparison looks at: its list-0 rows when only
/// those are compared, else all of them.
pub open spec fn selected_rows(rows: Seq<MvRow>, l0_only: bool) -> Seq<MvRow> {
    if l0_only {
        rows.filter(list0())
    } else {
        rows
    }
}

/// Two dumps compared: how many vectors of each side take part, and the
/// differences.
pub struct DumpComparison {
    pub first_rows: usize,
    pub second_rows: usize,
    pub diffs: Vec<(Key, String)>,
}

fn copy_field(f: &FloatField) -> (c: FloatField)
    ensures
        c == *f,
{
    FloatField { eq_class: f.eq_class, text: f.text.clone() }
}

impl MvRow {
    pub(crate) fn copy_row(&self) -> (res: MvRow)
        ensures
            res == *self,
    {
        MvRow {
            key: self.key,
            src_x: copy_field(&self.src_x),
            src_y: copy_field(&self.src_y),
            dst_x: copy_field(&self.dst_x),
            dst_y: copy_field(&self.dst_y),
            w: copy_field(&self.w),
            h: copy_field(&self.h),
            motion_x: copy_field(&self.motion_x),
            motion_y: copy_field(&self.motion_y),
            motion_scale: copy_field(&self.motion_scale),
        }
    }
}

fn select_rows(rows: Vec<MvRow>, l0_only: bool) -> (res: Vec<MvRow>)
    ensures
        res@ == selected_rows(rows@, l0_only),
{
    if !l0_only {
        return rows;
    }
    let mut out: Vec<MvRow> = Vec::new();
    let mut i: usize = 0;
    proof {
        assert(rows@.take(0).filter(list0()) =~= Seq::<MvRow>::empty());
    }
    while i < rows.len()
        invariant
            i <= rows@.len(),
            out@ == rows@.take(i as int).filter(list0()),
        decreases rows@.len() - i,
    {
        proof {
            assert(rows@.take(i + 1).drop_last() =~= rows@.take(i as int));
            reveal(Seq::filter);
        }
        if rows[i].key.source == -1 {
            out.push(rows[i].copy_row());
        }
        i += 1;
    }
    proof {
        assert(rows@.take(i as int) =~= rows@);
    }
    out
}

pub(crate) fn count_non_zero(rows: &Vec<MvRow>) -> (n: usize)
    ensures
        n == rows@.filter(non_zero()).len(),
{
    let mut n: usize = 0;
    let mut i: usize = 0;
    proof {
        assert(rows@.take(0).filter(non_zero()) =~= Seq::<MvRow>::empty());
    }
    while i < rows.len()
        invariant
            i <= rows@.len(),
            n == rows@.take(i as int).filter(non_zero()).len(),
            n <= i,
        decreases rows@.len() - i,
    {
        proof {
            assert(rows@.take(i + 1).drop_last() =~= rows@.take(i as int));
            reveal(Seq::filter);
        }
        if !is_zero_size(&rows[i]) {
            n += 1;
        }
        i += 1;
    }
    proof {
        assert(rows@.take(i as int) =~= rows@);
    }
    n
}

/// Compares two dumps as the benchmark's sanity check does: restricted to
/// their list-0 rows when `l0_only`, with the number of vectors of each
/// side that take part (the non-zero-size ones).
pub fn compare_dumps(first: Vec<MvRow>, second: Vec<MvRow>, l0_only: bool) -> (res: DumpComparison)
    ensures
        is_comparison(Columns::Endpoints, selected_rows(first@, l0_only), selected_rows(second@, l0_only), diffs_view(res.diffs@)),
        res.first_rows == selected_rows(first@, l0_only).filter(non_zero()).len(),
        res.second_rows == selected_rows(second@, l0_only).filter(non_zero()).len(),
{
    let a = select_rows(first, l0_only);
    let b = select_rows(second, l0_only);
    let diffs = compare_frames(&a, &b);
    DumpComparison { first_rows: count_non_zero(&a), second_rows: count_non_zero(&b), diffs }
}

} // verus!
