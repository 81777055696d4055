//! Pairing the rows of the speedup check: for every stream count the
//! original FFmpeg method was benchmarked at, the first row of the original
//! method and the first row of the custom method at that count.

use vstd::prelude::*;
use crate::averaging::{entry_view, run_view};

verus! {

broadcast use vstd::seq_lib::group_seq_lib_default;

/// The method the speedup is measured against.
pub open spec fn original_method() -> Seq<char> {
    "Original FFmpeg MV only"@
}

/// The method whose speedup is measured.
pub open spec fn custom_method() -> Seq<char> {
    "Custom FFmpeg"@
}

/// Whether a stream count has a row of both methods.
pub open spec fn paired(rs: Seq<(Seq<char>, i32)>, s: i32) -> bool {
    rs.index_of_first((original_method(), s)) is Some && rs.index_of_first((custom_method(), s)) is Some
}

/// The rows of a method.
pub open spec fn of_method(name: Seq<char>) -> spec_fn((Seq<char>, i32)) -> bool {
    |e: (Seq<char>, i32)| e.0 == name
}

/// What the speedup check compares: the stream counts with rows of both
/// methods in increasing order, each with the position of the first row of
/// the original method and of the custom method at that count.
pub open spec fn is_speedup_pairing(rs: Seq<(Seq<char>, i32)>, out: Seq<(i32, int, int)>) -> bool {
    &&& forall|i: int, j: int| 0 <= i < j < out.len() ==> (#[trigger] out[i]).0 < (#[trigger] out[j]).0
    &&& forall|k: int| 0 <= k < out.len() ==> {
        &&& rs.index_of_first((original_method(), (#[trigger] out[k]).0)) == Some(out[k].1)
        &&& rs.index_of_first((custom_method(), out[k].0)) == Some(out[k].2)
    }
    &&& forall|s: i32| #[trigger] paired(rs, s) <==> exists|k: int| 0 <= k < out.len() && (#[trigger] out[k]).0 == s
}

pub open spec fn pairs_view(v: Seq<(i32, usize, usize)>) -> Seq<(i32, int, int)> {
    v.map_values(|p: (i32, usize, usize)| (p.0, p.1 as int, p.2 as int))
}

/// The speedup check's rows: how many rows each method has, and the pairs
/// it compares.
pub struct SpeedupPairs {
    pub original_rows: usize,
    pub custom_rows: usize,
    pub pairs: Vec<(i32, usize, usize)>,
}

/// Position of the first row `(name, streams)`.
fn first_row(rs: &Vec<(String, i32)>, name: &String, streams: i32) -> (res: Option<usize>)
    ensures
        match res {
            Some(i) => run_view(*rs).index_of_first((name@, streams)) == Some(i as int),
            None => run_view(*rs).index_of_first((name@, streams)) is None,
        },
{
    let ghost rv = run_view(*rs);
    let ghost key = (name@, streams);
    let mut i: usize = 0;
    while i < rs.len()
        invariant
            i <= rs@.len(),
            rv == run_view(*rs),
            key == (name@, streams),
            forall|j: int| 0 <= j < i ==> rv[j] != key,
        decreases rs@.len() - i,
    {
        if rs[i].0 == *name && rs[i].1 == streams {
            proof {
                assert(rv[i as int] == key);
                rv.index_of_first_ensures(key);
                assert(rv.contains(key));
            }
            return Some(i);
        }
        proof {
            assert(rv[i as int] == entry_view(rs@[i as int]));
        }
        i += 1;
    }
    proof {
        rv.index_of_first_ensures(key);
        if rv.contains(key) {
            let k = choose|k: int| 0 <= k < rv.len() && rv[k] == key;
            assert(rv[k] != key);
        }
    }
    None
}

/// Number of rows of a method.
fn count_rows(rs: &Vec<(String, i32)>, name: &String) -> (n: usize)
    ensures
        n == run_view(*rs).filter(of_method(name@)).len(),
{
    let ghost rv = run_view(*rs);
    let mut n: usize = 0;
    let mut i: usize = 0;
    proof {
        assert(rv.take(0) =~= Seq::<(Seq<char>, i32)>::empty());
        assert(rv.take(0).filter(of_method(name@)) =~= Seq::<(Seq<char>, i32)>::empty());
    }
    while i < rs.len()
        invariant
            i <= rs@.len(),
            rv == run_view(*rs),
            n == rv.take(i as int).filter(of_method(name@)).len(),
            n <= i,
        decreases rs@.len() - i,
    {
        proof {
            assert(rv.take(i + 1) =~= rv.take(i as int).push(rv[i as int]));
            rv.take(i as int).lemma_filter_push(rv[i as int], of_method(name@));
            assert(rv[i as int] == entry_view(rs@[i as int]));
        }
        if rs[i].0 == *name {
            n += 1;
        }
        i += 1;
    }
    proof {
        assert(rv.take(i as int) =~= rv);
    }
    n
}

pub open spec fn above(s: i32, last: Option<i32>) -> bool {
    match last {
        Some(l) => s > l,
        None => true,
    }
}

/// The pairs the speedup check compares among benchmark rows given as
/// `(method, streams)`, with the row counts of the two methods.
pub fn speedup_pairs(rows: &Vec<(String, i32)>) -> (res: SpeedupPairs)
    ensures
        res.original_rows == run_view(*rows).filter(of_method(original_method())).len(),
        res.custom_rows == run_view(*rows).filter(of_method(custom_method())).len(),
        is_speedup_pairing(run_view(*rows), pairs_view(res.pairs@)),
{
    let ghost rv = run_view(*rows);
    let orig = "Original FFmpeg MV only".to_owned();
    let cust = "Custom FFmpeg".to_owned();
    let original_rows = count_rows(rows, &orig);
    let custom_rows = count_rows(rows, &cust);
    let mut pairs: Vec<(i32, usize, usize)> = Vec::new();
    let mut last: Option<i32> = None;
    let mut done = false;
    while !done
        invariant
            rv == run_view(*rows),
            orig@ == original_method(),
            cust@ == custom_method(),
            forall|i: int, j: int| 0 <= i < j < pairs@.len() ==> (#[trigger] pairs@[i]).0 < (#[trigger] pairs@[j]).0,
            forall|k: int| 0 <= k < pairs@.len() ==> {
                &&& rv.index_of_first((original_method(), (#[trigger] pairs@[k]).0)) == Some(pairs@[k].1 as int)
                &&& rv.index_of_first((custom_method(), pairs@[k].0)) == Some(pairs@[k].2 as int)
                &&& !above(pairs@[k].0, last)
            },
            forall|s: i32| #[trigger] paired(rv, s) && !above(s, last) ==> exists|k: int| 0 <= k < pairs@.len() && (#[trigger] pairs@[k]).0 == s,
            done ==> forall|j: int| 0 <= j < rv.len() && (#[trigger] rv[j]).0 == original_method() ==> !above(rv[j].1, last),
        decreases (if done { 0int } else { 1int }) + (i32::MAX as int) - match last {
            Some(l) => l as int,
            None => i32::MIN as int - 1,
        },
    {
        let mut best: Option<i32> = None;
        let mut i: usize = 0;
        while i < rows.len()
            invariant
                i <= rows@.len(),
                rv == run_view(*rows),
                orig@ == original_method(),
                match best {
                    Some(b) => above(b, last) && exists|j: int| 0 <= j < i && (#[trigger] rv[j]) == (original_method(), b),
                    None => true,
                },
                forall|j: int| 0 <= j < i && (#[trigger] rv[j]).0 == original_method() && above(rv[j].1, last) ==> match best {
                    Some(b) => b <= rv[j].1,
                    None => false,
                },
            decreases rows@.len() - i,
        {
            proof {
                assert(rv[i as int] == entry_view(rows@[i as int]));
            }
            let s = rows[i].1;
            let is_above = match last {
                Some(l) => s > l,
                None => true,
            };
            if rows[i].0 == orig && is_above {
                let better = match best {
                    Some(b) => s < b,
                    None => true,
                };
                if better {
                    best = Some(s);
                }
            }
            i += 1;
        }
        match best {
            None => {
                done = true;
            },
            Some(b) => {
                let o = first_row(rows, &orig, b);
                let c = first_row(rows, &cust, b);
                proof {
                    let j = choose|j: int| 0 <= j < rows@.len() && (#[trigger] rv[j]) == (original_method(), b);
                    rv.index_of_first_ensures((original_method(), b));
                    assert(rv.contains((original_method(), b)));
                }
                let ghost before = pairs@;
                match (o, c) {
                    (Some(oi), Some(ci)) => {
                        pairs.push((b, oi, ci));
                    },
                    _ => {},
                }
                proof {
                    assert forall|s: i32| #[trigger] paired(rv, s) && !above(s, Some(b)) implies exists|k: int| 0 <= k < pairs@.len() && (#[trigger] pairs@[k]).0 == s by {
                        if above(s, last) {
                            rv.index_of_first_ensures((original_method(), s));
                            let j = rv.index_of_first((original_method(), s))->0;
                            assert(rv[j] == (original_method(), s));
                            assert(b <= s);
                            assert(s == b);
                            assert(pairs@[before.len() as int].0 == s);
                        } else {
                            let k = choose|k: int| 0 <= k < before.len() && (#[trigger] before[k]).0 == s;
                            assert(pairs@[k] == before[k]);
                        }
                    }
                }
                last = Some(b);
            },
        }
    }
    proof {
        let pv = pairs_view(pairs@);
        assert forall|k: int| 0 <= k < pv.len() implies #[trigger] pv[k] == (pairs@[k].0, pairs@[k].1 as int, pairs@[k].2 as int) by {}
        assert forall|i: int, j: int| 0 <= i < j < pv.len() implies (#[trigger] pv[i]).0 < (#[trigger] pv[j]).0 by {
            assert(pairs@[i].0 < pairs@[j].0);
        }
        assert forall|k: int| 0 <= k < pv.len() implies {
            &&& rv.index_of_first((original_method(), (#[trigger] pv[k]).0)) == Some(pv[k].1)
            &&& rv.index_of_first((custom_method(), pv[k].0)) == Some(pv[k].2)
        } by {
            assert(pairs@[k].0 == pv[k].0);
        }
        assert forall|s: i32| #[trigger] paired(rv, s) <==> exists|k: int| 0 <= k < pv.len() && (#[trigger] pv[k]).0 == s by {
            if paired(rv, s) {
                rv.index_of_first_ensures((original_method(), s));
                let j = rv.index_of_first((original_method(), s))->0;
                assert(rv[j].0 == original_method());
                let k = choose|k: int| 0 <= k < pairs@.len() && (#[trigger] pairs@[k]).0 == s;
                assert(pv[k].0 == s);
            }
            if exists|k: int| 0 <= k < pv.len() && (#[trigger] pv[k]).0 == s {
                let k = choose|k: int| 0 <= k < pv.len() && (#[trigger] pv[k]).0 == s;
                assert(pairs@[k].0 == s);
            }
        }
    }
    SpeedupPairs { original_rows, custom_rows, pairs }
}

} // verus!
