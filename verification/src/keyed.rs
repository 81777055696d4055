//! Labels ordered by an integer key, kept in the order of arrival among
//! equal keys (what a stable sort by key gives).

use vstd::prelude::*;

verus! {

broadcast use vstd::seq_lib::group_seq_lib_default;

pub open spec fn labeled_views(v: Seq<(i64, String)>) -> Seq<(i64, Seq<char>)> {
    v.map_values(|c: (i64, String)| (c.0, c.1@))
}

/// Selects the entries with key `t`.
pub open spec fn with_key(t: i64) -> spec_fn((i64, Seq<char>)) -> bool {
    |c: (i64, Seq<char>)| c.0 == t
}

/// The keys never decrease along `s`.
pub open spec fn key_ordered(s: Seq<(i64, Seq<char>)>) -> bool {
    forall|i: int, j: int| 0 <= i < j < s.len() ==> (#[trigger] s[i]).0 <= (#[trigger] s[j]).0
}

/// `s` is `src` ordered by key, entries with equal keys in their order in
/// `src`.
pub open spec fn is_stable_key_order(s: Seq<(i64, Seq<char>)>, src: Seq<(i64, Seq<char>)>) -> bool {
    &&& key_ordered(s)
    &&& forall|t: i64| #[trigger] s.filter(with_key(t)) == src.filter(with_key(t))
}

proof fn lemma_filter_key_none(s: Seq<(i64, Seq<char>)>, t: i64)
    requires
        forall|i: int| 0 <= i < s.len() ==> (#[trigger] s[i]).0 != t,
    ensures
        s.filter(with_key(t)) == Seq::<(i64, Seq<char>)>::empty(),
{
    s.lemma_all_neg_filter_empty(with_key(t));
    assert(s.filter(with_key(t)) =~= Seq::<(i64, Seq<char>)>::empty());
}

/// Inserts an entry after every entry whose key is at most its own.
pub fn insert_keyed(out: &mut Vec<(i64, String)>, key: i64, label: String)
    requires
        key_ordered(labeled_views(old(out)@)),
    ensures
        key_ordered(labeled_views(final(out)@)),
        forall|t: i64| #[trigger] labeled_views(final(out)@).filter(with_key(t)) == if t == key {
            labeled_views(old(out)@).filter(with_key(t)).push((key, label@))
        } else {
            labeled_views(old(out)@).filter(with_key(t))
        },
{
    let ghost before = labeled_views(out@);
    let ghost x = (key, label@);
    let mut p = out.len();
    while p > 0 && out[p - 1].0 > key
        invariant
            p <= out@.len(),
            before == labeled_views(out@),
            forall|q: int| p <= q < out@.len() ==> (#[trigger] out@[q]).0 > key,
        decreases p,
    {
        p -= 1;
    }
    out.insert(p, (key, label));
    proof {
        let a = before.take(p as int);
        let b = before.skip(p as int);
        assert(before =~= a + b);
        assert(labeled_views(out@) =~= a + seq![x] + b);
        assert forall|i: int, j: int| 0 <= i < j < labeled_views(out@).len() implies (#[trigger] labeled_views(out@)[i]).0 <= (#[trigger] labeled_views(out@)[j]).0 by {
            let n = labeled_views(out@);
            if j < p {
                assert(n[i] == before[i] && n[j] == before[j]);
            } else if j == p {
                assert(n[i] == before[i]);
                assert(p > 0 ==> before[p - 1].0 <= key);
                if i < p - 1 {
                    assert(before[i].0 <= before[p - 1].0);
                }
            } else if i == p {
                assert(n[j] == before[j - 1]);
            } else if i < p {
                assert(n[i] == before[i] && n[j] == before[j - 1]);
            } else {
                assert(n[i] == before[i - 1] && n[j] == before[j - 1]);
            }
        }
        assert forall|t: i64| #[trigger] labeled_views(out@).filter(with_key(t)) == if t == key {
            before.filter(with_key(t)).push(x)
        } else {
            before.filter(with_key(t))
        } by {
            let n = labeled_views(out@);
            assert(n == (a + seq![x]) + b);
            assert((a + seq![x]).filter(with_key(t)) == a.filter(with_key(t)) + seq![x].filter(with_key(t)));
            assert(before.filter(with_key(t)) == a.filter(with_key(t)) + b.filter(with_key(t)));
            reveal(Seq::filter);
            assert(seq![x].drop_last() =~= Seq::<(i64, Seq<char>)>::empty());
            if t == key {
                assert forall|q: int| 0 <= q < b.len() implies (#[trigger] b[q]).0 != t by {
                    assert(b[q] == before[p + q]);
                }
                lemma_filter_key_none(b, t);
                assert(seq![x].filter(with_key(t)) =~= seq![x]);
                assert(n.filter(with_key(t)) =~= before.filter(with_key(t)).push(x));
            } else {
                lemma_filter_key_none(seq![x], t);
                assert(n.filter(with_key(t)) =~= before.filter(with_key(t)));
            }
        }
    }
}

} // verus!
