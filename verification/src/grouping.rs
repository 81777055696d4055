//! Stable grouping of `(Key, index)` entries: a merge sort by key that keeps,
//! for every key, the entries of that key in their original order.

use vstd::prelude::*;
use crate::key::{Key, key_le, key_lt, lemma_key_order};

verus! {

broadcast use vstd::seq_lib::group_seq_lib_default;

/// A row identity paired with the row's position in its dump.
pub type Entry = (Key, usize);

/// Selects the entries whose key is `k`.
pub open spec fn has_key(k: Key) -> spec_fn(Entry) -> bool {
    |e: Entry| e.0 == k
}

/// Entries are in non-decreasing key order.
pub open spec fn key_sorted(s: Seq<Entry>) -> bool {
    forall|i: int, j: int| 0 <= i < j < s.len() ==> key_le(#[trigger] s[i].0, #[trigger] s[j].0)
}

/// For every key, both sequences hold the same entries of that key in the same
/// order: `a` is a stable rearrangement of `b` when it is also sorted.
pub open spec fn same_groups(a: Seq<Entry>, b: Seq<Entry>) -> bool {
    forall|k: Key| #[trigger] a.filter(has_key(k)) == b.filter(has_key(k))
}

/// No entry of `s` has key `k`.
pub proof fn lemma_filter_none(s: Seq<Entry>, k: Key)
    requires
        forall|i: int| 0 <= i < s.len() ==> (#[trigger] s[i]).0 != k,
    ensures
        s.filter(has_key(k)) == Seq::<Entry>::empty(),
{
    s.lemma_all_neg_filter_empty(has_key(k));
    assert(s.filter(has_key(k)) =~= Seq::<Entry>::empty());
}

/// Every entry of `s` has key `k`.
pub proof fn lemma_filter_all(s: Seq<Entry>, k: Key)
    requires
        forall|i: int| 0 <= i < s.len() ==> (#[trigger] s[i]).0 == k,
    ensures
        s.filter(has_key(k)) == s,
    decreases s.len(),
{
    if s.len() > 0 {
        let r = s.drop_last();
        lemma_filter_all(r, k);
        r.lemma_filter_push(s.last(), has_key(k));
        assert(r.push(s.last()) =~= s);
    } else {
        reveal(Seq::filter);
    }
}

/// Stable merge of two key-sorted sequences.
fn merge(a: &Vec<Entry>, b: &Vec<Entry>) -> (out: Vec<Entry>)
    requires
        key_sorted(a@),
        key_sorted(b@),
    ensures
        out@.len() == a@.len() + b@.len(),
        key_sorted(out@),
        forall|k: Key| #[trigger] out@.filter(has_key(k)) == a@.filter(has_key(k)) + b@.filter(has_key(k)),
{
    let mut out: Vec<Entry> = Vec::new();
    let mut i: usize = 0;
    let mut j: usize = 0;
    proof {
        assert forall|k: Key| #[trigger] out@.filter(has_key(k)) == a@.take(0).filter(has_key(k)) + b@.take(0).filter(has_key(k)) by {
            reveal(Seq::filter);
            assert(a@.take(0) =~= Seq::<Entry>::empty());
            assert(b@.take(0) =~= Seq::<Entry>::empty());
            assert(out@.filter(has_key(k)) =~= Seq::<Entry>::empty());
        }
    }
    while i < a.len() || j < b.len()
        invariant
            i <= a@.len(),
            j <= b@.len(),
            out@.len() == i + j,
            key_sorted(a@),
            key_sorted(b@),
            key_sorted(out@),
            out@.len() > 0 && i < a@.len() ==> key_le(out@.last().0, a@[i as int].0),
            out@.len() > 0 && j < b@.len() ==> key_le(out@.last().0, b@[j as int].0),
            j > 0 && i < a@.len() ==> key_lt(b@[j - 1].0, a@[i as int].0),
            forall|k: Key| #[trigger] out@.filter(has_key(k)) == a@.take(i as int).filter(has_key(k)) + b@.take(j as int).filter(has_key(k)),
        decreases a@.len() + b@.len() - i - j,
    {
        if i < a.len() && (j >= b.len() || a[i].0.precedes_or_equals(&b[j].0)) {
            let e = a[i];
            proof {
                assert(a@.take(i + 1) =~= a@.take(i as int).push(e));
                assert forall|k: Key| #[trigger] out@.push(e).filter(has_key(k)) == a@.take(i + 1).filter(has_key(k)) + b@.take(j as int).filter(has_key(k)) by {
                    out@.lemma_filter_push(e, has_key(k));
                    a@.take(i as int).lemma_filter_push(e, has_key(k));
                    if e.0 == k {
                        assert forall|t: int| 0 <= t < b@.take(j as int).len() implies (#[trigger] b@.take(j as int)[t]).0 != k by {
                            lemma_key_order(b@[t].0, b@[j - 1].0, a@[i as int].0);
                            if t < j - 1 {
                                assert(key_le(b@[t].0, b@[j - 1].0));
                            }
                        }
                        lemma_filter_none(b@.take(j as int), k);
                        assert(a@.take(i as int).filter(has_key(k)) + b@.take(j as int).filter(has_key(k)) =~= a@.take(i as int).filter(has_key(k)));
                        assert(a@.take(i as int).filter(has_key(k)).push(e) + b@.take(j as int).filter(has_key(k)) =~= a@.take(i as int).filter(has_key(k)).push(e));
                    }
                }
                assert forall|p: int, q: int| 0 <= p < q < out@.push(e).len() implies key_le(#[trigger] out@.push(e)[p].0, #[trigger] out@.push(e)[q].0) by {
                    if q == out@.len() && p < out@.len() {
                        lemma_key_order(out@[p].0, out@.last().0, e.0);
                    }
                }
                if i + 1 < a@.len() {
                    assert(key_le(a@[i as int].0, a@[i + 1].0));
                    if j > 0 {
                        lemma_key_order(b@[j - 1].0, a@[i as int].0, a@[i + 1].0);
                    }
                }
            }
            out.push(e);
            i += 1;
        } else {
            let e = b[j];
            proof {
                assert(b@.take(j + 1) =~= b@.take(j as int).push(e));
                assert forall|k: Key| #[trigger] out@.push(e).filter(has_key(k)) == a@.take(i as int).filter(has_key(k)) + b@.take(j + 1).filter(has_key(k)) by {
                    out@.lemma_filter_push(e, has_key(k));
                    b@.take(j as int).lemma_filter_push(e, has_key(k));
                    if e.0 == k {
                        assert(a@.take(i as int).filter(has_key(k)) + b@.take(j as int).filter(has_key(k)).push(e) =~= (a@.take(i as int).filter(has_key(k)) + b@.take(j as int).filter(has_key(k))).push(e));
                    }
                }
                if i < a@.len() {
                    lemma_key_order(e.0, a@[i as int].0, e.0);
                }
                assert forall|p: int, q: int| 0 <= p < q < out@.push(e).len() implies key_le(#[trigger] out@.push(e)[p].0, #[trigger] out@.push(e)[q].0) by {
                    if q == out@.len() && p < out@.len() {
                        lemma_key_order(out@[p].0, out@.last().0, e.0);
                    }
                }
                if j + 1 < b@.len() {
                    assert(key_le(b@[j as int].0, b@[j + 1].0));
                    lemma_key_order(out@.push(e).last().0, b@[j as int].0, b@[j + 1].0);
                }
            }
            out.push(e);
            j += 1;
        }
    }
    proof {
        assert(a@.take(i as int) =~= a@);
        assert(b@.take(j as int) =~= b@);
    }
    out
}

/// Stable sort of `v[lo..hi]` by key.
fn sort_range(v: &Vec<Entry>, lo: usize, hi: usize) -> (out: Vec<Entry>)
    requires
        lo <= hi <= v@.len(),
    ensures
        out@.len() == hi - lo,
        key_sorted(out@),
        same_groups(out@, v@.subrange(lo as int, hi as int)),
    decreases hi - lo,
{
    if hi - lo <= 1 {
        let mut out: Vec<Entry> = Vec::new();
        if hi - lo == 1 {
            out.push(v[lo]);
        }
        proof {
            assert(out@ =~= v@.subrange(lo as int, hi as int));
        }
        out
    } else {
        let mid = lo + (hi - lo) / 2;
        let left = sort_range(v, lo, mid);
        let right = sort_range(v, mid, hi);
        let out = merge(&left, &right);
        proof {
            assert(v@.subrange(lo as int, hi as int) =~= v@.subrange(lo as int, mid as int) + v@.subrange(mid as int, hi as int));
            assert forall|k: Key| #[trigger] out@.filter(has_key(k)) == v@.subrange(lo as int, hi as int).filter(has_key(k)) by {
                assert(left@.filter(has_key(k)) == v@.subrange(lo as int, mid as int).filter(has_key(k)));
                assert(right@.filter(has_key(k)) == v@.subrange(mid as int, hi as int).filter(has_key(k)));
            }
        }
        out
    }
}

/// Sorts entries by key, keeping entries of equal key in their original order.
pub fn stable_sort_by_key(v: &Vec<Entry>) -> (out: Vec<Entry>)
    ensures
        out@.len() == v@.len(),
        key_sorted(out@),
        same_groups(out@, v@),
{
    let out = sort_range(v, 0, v.len());
    proof {
        assert(v@.subrange(0, v@.len() as int) =~= v@);
    }
    out
}

} // verus!
