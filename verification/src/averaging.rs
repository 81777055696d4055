//! Which benchmark rows are averaged together.
//!
//! A benchmark point is run several times; the rows of all runs that share a
//! method and a stream count are averaged into one. The methods come out in
//! the order in which the first run lists them.

use vstd::prelude::*;

verus! {

/// A benchmark row as the grouping reads it: method name and stream count.
pub open spec fn entry_view(e: (String, i32)) -> (Seq<char>, i32) {
    (e.0@, e.1)
}

pub open spec fn run_view(r: Vec<(String, i32)>) -> Seq<(Seq<char>, i32)> {
    r@.map_values(|e: (String, i32)| entry_view(e))
}

pub open spec fn runs_view(rs: Seq<Vec<(String, i32)>>) -> Seq<Seq<(Seq<char>, i32)>> {
    rs.map_values(|r: Vec<(String, i32)>| run_view(r))
}

/// The positions `(j, k)` of the entries of run `j` equal to `key`, in order.
pub open spec fn hits_in_run(run: Seq<(Seq<char>, i32)>, j: int, key: (Seq<char>, i32)) -> Seq<(int, int)>
    decreases run.len(),
{
    if run.len() == 0 {
        seq![]
    } else {
        let p = hits_in_run(run.drop_last(), j, key);
        if run.last() == key {
            p.push((j, run.len() - 1))
        } else {
            p
        }
    }
}

/// The positions of every entry equal to `key`, run by run, each run in order.
pub open spec fn hits(runs: Seq<Seq<(Seq<char>, i32)>>, key: (Seq<char>, i32)) -> Seq<(int, int)>
    decreases runs.len(),
{
    if runs.len() == 0 {
        seq![]
    } else {
        hits(runs.drop_last(), key) + hits_in_run(runs.last(), runs.len() - 1, key)
    }
}

/// The positions `hits_in_run` finds in run `j` are exactly those of its
/// entries equal to `key`.
proof fn lemma_hits_in_run_exact(run: Seq<(Seq<char>, i32)>, j: int, key: (Seq<char>, i32))
    ensures
        forall|t: int| 0 <= t < hits_in_run(run, j, key).len() ==> {
            let h = #[trigger] hits_in_run(run, j, key)[t];
            h.0 == j && 0 <= h.1 < run.len() && run[h.1] == key
        },
        forall|k: int| 0 <= k < run.len() && run[k] == key ==> hits_in_run(run, j, key).contains((j, k)),
    decreases run.len(),
{
    if run.len() > 0 {
        let p = run.drop_last();
        lemma_hits_in_run_exact(p, j, key);
        let hp = hits_in_run(p, j, key);
        assert forall|t: int| 0 <= t < hits_in_run(run, j, key).len() implies {
            let h = #[trigger] hits_in_run(run, j, key)[t];
            h.0 == j && 0 <= h.1 < run.len() && run[h.1] == key
        } by {
            if t < hp.len() {
                assert(hits_in_run(run, j, key)[t] == hp[t]);
                assert(run[hp[t].1] == p[hp[t].1]);
            }
        }
        assert forall|k: int| 0 <= k < run.len() && run[k] == key implies hits_in_run(run, j, key).contains((j, k)) by {
            if k < p.len() {
                assert(p[k] == run[k]);
                let t = choose|t: int| 0 <= t < hp.len() && hp[t] == (j, k);
                assert(hits_in_run(run, j, key)[t] == hp[t]);
            } else {
                assert(hits_in_run(run, j, key).last() == (j, k));
            }
        }
    }
}

/// The positions averaged together for a key are exactly those, over every
/// run, of the entries equal to the key: each one listed is such an entry,
/// and no such entry of any run is left out.
pub proof fn lemma_hits_exact(runs: Seq<Seq<(Seq<char>, i32)>>, key: (Seq<char>, i32))
    ensures
        forall|t: int| 0 <= t < hits(runs, key).len() ==> {
            let h = #[trigger] hits(runs, key)[t];
            0 <= h.0 < runs.len() && 0 <= h.1 < runs[h.0].len() && runs[h.0][h.1] == key
        },
        forall|j: int, k: int|
            0 <= j < runs.len() && 0 <= k < runs[j].len() && #[trigger] runs[j][k] == key ==> hits(runs, key).contains((j, k)),
    decreases runs.len(),
{
    if runs.len() > 0 {
        let p = runs.drop_last();
        let last = runs.last();
        let n = runs.len() - 1;
        lemma_hits_exact(p, key);
        lemma_hits_in_run_exact(last, n, key);
        let hp = hits(p, key);
        let hl = hits_in_run(last, n, key);
        assert(hits(runs, key) == hp + hl);
        assert forall|t: int| 0 <= t < hits(runs, key).len() implies {
            let h = #[trigger] hits(runs, key)[t];
            0 <= h.0 < runs.len() && 0 <= h.1 < runs[h.0].len() && runs[h.0][h.1] == key
        } by {
            if t < hp.len() {
                assert(hits(runs, key)[t] == hp[t]);
                assert(runs[hp[t].0] == p[hp[t].0]);
            } else {
                assert(hits(runs, key)[t] == hl[t - hp.len()]);
            }
        }
        assert forall|j: int, k: int|
            0 <= j < runs.len() && 0 <= k < runs[j].len() && #[trigger] runs[j][k] == key implies hits(runs, key).contains((j, k)) by {
            if j < p.len() {
                assert(p[j] == runs[j]);
                assert(p[j][k] == key);
                let t = choose|t: int| 0 <= t < hp.len() && hp[t] == (j, k);
                assert(hits(runs, key)[t] == hp[t]);
            } else {
                assert(last[k] == key);
                let t = choose|t: int| 0 <= t < hl.len() && hl[t] == (j, k);
                assert(hits(runs, key)[hp.len() + t] == hl[t]);
            }
        }
    }
}

/// The distinct elements of `s` in order of first appearance.
pub open spec fn distinct_in_order(s: Seq<Seq<char>>) -> Seq<Seq<char>>
    decreases s.len(),
{
    if s.len() == 0 {
        seq![]
    } else {
        let p = distinct_in_order(s.drop_last());
        if p.contains(s.last()) {
            p
        } else {
            p.push(s.last())
        }
    }
}

pub open spec fn method_of() -> spec_fn((Seq<char>, i32)) -> Seq<char> {
    |e: (Seq<char>, i32)| e.0
}

/// The group of a method: its name and the positions of its rows at the
/// given stream count, or nothing when it has none.
pub open spec fn group_of(runs: Seq<Seq<(Seq<char>, i32)>>, streams: i32) -> spec_fn(Seq<char>) -> Option<(Seq<char>, Seq<(int, int)>)> {
    |m: Seq<char>| {
        let h = hits(runs, (m, streams));
        if h.len() > 0 {
            Some((m, h))
        } else {
            None
        }
    }
}

/// The groups to average for a stream count: one per method of the first
/// run that has rows at that stream count, in first-run order.
pub open spec fn averaging_groups(runs: Seq<Seq<(Seq<char>, i32)>>, streams: i32) -> Seq<(Seq<char>, Seq<(int, int)>)> {
    if runs.len() == 0 {
        seq![]
    } else {
        distinct_in_order(runs[0].map_values(method_of())).filter_map(group_of(runs, streams))
    }
}

pub open spec fn positions_seq(s: Seq<(usize, usize)>) -> Seq<(int, int)> {
    s.map_values(|p: (usize, usize)| (p.0 as int, p.1 as int))
}

pub open spec fn positions_view(v: Vec<(usize, usize)>) -> Seq<(int, int)> {
    positions_seq(v@)
}

pub open spec fn groups_view(g: Seq<(String, Vec<(usize, usize)>)>) -> Seq<(Seq<char>, Seq<(int, int)>)> {
    g.map_values(|x: (String, Vec<(usize, usize)>)| (x.0@, positions_view(x.1)))
}

/// The positions, run by run, of the entries equal to `(method, streams)`.
fn collect_hits(runs: &Vec<Vec<(String, i32)>>, method: &String, streams: i32) -> (res: Vec<(usize, usize)>)
    ensures
        positions_view(res) == hits(runs_view(runs@), (method@, streams)),
{
    let ghost rv = runs_view(runs@);
    let ghost key = (method@, streams);
    let mut out: Vec<(usize, usize)> = Vec::new();
    let mut j: usize = 0;
    proof {
        assert(rv.take(0) =~= Seq::<Seq<(Seq<char>, i32)>>::empty());
        assert(positions_view(out) =~= hits(rv.take(0), key));
    }
    while j < runs.len()
        invariant
            j <= runs@.len(),
            rv == runs_view(runs@),
            key == (method@, streams),
            positions_view(out) == hits(rv.take(j as int), key),
        decreases runs@.len() - j,
    {
        let run = &runs[j];
        let ghost base = out@;
        let ghost rj = rv[j as int];
        proof {
            assert(rj == run_view(*run));
            assert(rj.take(0) =~= Seq::<(Seq<char>, i32)>::empty());
            assert(positions_view(out) == hits(rv.take(j as int), key) + hits_in_run(rj.take(0), j as int, key));
        }
        let mut k: usize = 0;
        while k < run.len()
            invariant
                j < runs@.len(),
                k <= run@.len(),
                rj == run_view(*run),
                key == (method@, streams),
                positions_view(out) == hits(rv.take(j as int), key) + hits_in_run(rj.take(k as int), j as int, key),
            decreases run@.len() - k,
        {
            let ghost before = out@;
            proof {
                assert(rj.take(k + 1).drop_last() =~= rj.take(k as int));
                assert(rj.take(k + 1).last() == entry_view(run@[k as int]));
            }
            if run[k].0 == *method && run[k].1 == streams {
                out.push((j, k));
                proof {
                    assert(positions_seq(out@) =~= positions_seq(before).push((j as int, k as int)));
                }
            }
            proof {
                assert(positions_view(out) =~= hits(rv.take(j as int), key) + hits_in_run(rj.take(k + 1), j as int, key));
            }
            k += 1;
        }
        proof {
            assert(rj.take(k as int) =~= rj);
            assert(rv.take(j + 1).drop_last() =~= rv.take(j as int));
            assert(rv.take(j + 1).last() == rj);
        }
        j += 1;
    }
    proof {
        assert(rv.take(j as int) =~= rv);
    }
    out
}

/// The groups of rows to average into one row each for `streams` streams:
/// for every method of the first run, in the order of its first appearance
/// there, the positions `(run, row)` of all rows of that method at that
/// stream count, run by run. Methods without such a row have no group, and
/// no runs give no groups.
pub fn averaging_plan(runs: &Vec<Vec<(String, i32)>>, streams: i32) -> (res: Vec<(String, Vec<(usize, usize)>)>)
    ensures
        groups_view(res@) == averaging_groups(runs_view(runs@), streams),
        // each group holds exactly the positions, over all runs, of its method's rows
        forall|i: int, j: int, k: int|
            0 <= i < res@.len() && 0 <= j < runs@.len() && 0 <= k < runs@[j]@.len() ==> (#[trigger] positions_view(
                res@[i].1,
            ).contains((j, k)) <==> runs_view(runs@)[j][k] == (res@[i].0@, streams)),
        forall|i: int, t: int| 0 <= i < res@.len() && 0 <= t < positions_view(res@[i].1).len() ==> {
            let h = #[trigger] positions_view(res@[i].1)[t];
            0 <= h.0 < runs@.len() && 0 <= h.1 < runs@[h.0]@.len() && runs_view(runs@)[h.0][h.1] == (res@[i].0@, streams)
        },
{
    let mut out: Vec<(String, Vec<(usize, usize)>)> = Vec::new();
    if runs.len() == 0 {
        proof {
            assert(groups_view(out@) =~= Seq::<(Seq<char>, Seq<(int, int)>)>::empty());
        }
        return out;
    }
    let ghost rv = runs_view(runs@);
    let first = &runs[0];
    let ghost ms = rv[0].map_values(method_of());
    proof {
        assert(rv[0] == run_view(*first));
    }
    let mut seen: Vec<String> = Vec::new();
    let mut k: usize = 0;
    proof {
        assert(ms.take(0) =~= Seq::<Seq<char>>::empty());
        assert(groups_view(out@) =~= distinct_in_order(ms.take(0)).filter_map(group_of(rv, streams)));
    }
    while k < first.len()
        invariant
            runs@.len() > 0,
            rv == runs_view(runs@),
            *first == runs@[0],
            rv[0] == run_view(*first),
            ms == rv[0].map_values(method_of()),
            k <= first@.len(),
            seen@.map_values(|x: String| x@) == distinct_in_order(ms.take(k as int)),
            groups_view(out@) == distinct_in_order(ms.take(k as int)).filter_map(group_of(rv, streams)),
        decreases first@.len() - k,
    {
        let m = &first[k].0;
        let ghost d = distinct_in_order(ms.take(k as int));
        proof {
            assert(ms.take(k + 1).drop_last() =~= ms.take(k as int));
            assert(ms.take(k + 1).last() == m@);
        }
        let mut found = false;
        let mut q: usize = 0;
        while q < seen.len()
            invariant
                q <= seen@.len(),
                seen@.map_values(|x: String| x@) == d,
                found <==> exists|i: int| 0 <= i < q && d[i] == m@,
            decreases seen@.len() - q,
        {
            proof {
                assert(d[q as int] == seen@[q as int]@);
            }
            if seen[q] == *m {
                found = true;
            }
            q += 1;
        }
        proof {
            if d.contains(m@) {
                let i = choose|i: int| 0 <= i < d.len() && d[i] == m@;
                assert(found);
            }
            if found {
                let i = choose|i: int| 0 <= i < q && d[i] == m@;
                assert(d.contains(m@));
            }
        }
        if !found {
            let ghost before_seen = seen@;
            let ghost before_out = out@;
            seen.push(m.clone());
            proof {
                assert(seen@.map_values(|x: String| x@) =~= d.push(m@));
                assert(d.push(m@).drop_last() =~= d);
            }
            let h = collect_hits(runs, m, streams);
            if h.len() > 0 {
                out.push((m.clone(), h));
                proof {
                    assert(groups_view(out@) =~= groups_view(before_out).push((m@, positions_view(h))));
                }
            }
            proof {
                assert(groups_view(out@) =~= d.push(m@).filter_map(group_of(rv, streams)));
            }
        }
        k += 1;
    }
    proof {
        assert(ms.take(k as int) =~= ms);
        lemma_groups_exact(runs@, streams, out@);
    }
    out
}

/// The groups of an averaging plan hold exactly the positions of their
/// method's rows, in every run.
proof fn lemma_groups_exact(runs: Seq<Vec<(String, i32)>>, streams: i32, res: Seq<(String, Vec<(usize, usize)>)>)
    requires
        groups_view(res) == averaging_groups(runs_view(runs), streams),
    ensures
        forall|i: int, j: int, k: int|
            0 <= i < res.len() && 0 <= j < runs.len() && 0 <= k < runs[j]@.len() ==> (#[trigger] positions_view(
                res[i].1,
            ).contains((j, k)) <==> runs_view(runs)[j][k] == (res[i].0@, streams)),
        forall|i: int, t: int| 0 <= i < res.len() && 0 <= t < positions_view(res[i].1).len() ==> {
            let h = #[trigger] positions_view(res[i].1)[t];
            0 <= h.0 < runs.len() && 0 <= h.1 < runs[h.0]@.len() && runs_view(runs)[h.0][h.1] == (res[i].0@, streams)
        },
{
    let rv = runs_view(runs);
    assert forall|i: int| 0 <= i < res.len() implies #[trigger] positions_view(res[i].1) == hits(rv, (res[i].0@, streams)) by {
        let gi = groups_view(res)[i];
        assert(gi == (res[i].0@, positions_view(res[i].1)));
        let g = averaging_groups(rv, streams);
        assert(g[i] == gi);
        assert(g.contains(gi));
        assert(rv.len() > 0);
        let d = distinct_in_order(rv[0].map_values(method_of()));
        d.lemma_filter_map_contains(group_of(rv, streams), gi);
        let m = choose|m: Seq<char>| d.contains(m) && group_of(rv, streams)(m) == Some(gi);
        assert(gi == (m, hits(rv, (m, streams))));
    }
    assert forall|i: int, j: int, k: int|
        0 <= i < res.len() && 0 <= j < runs.len() && 0 <= k < runs[j]@.len() implies (#[trigger] positions_view(
            res[i].1,
        ).contains((j, k)) <==> rv[j][k] == (res[i].0@, streams)) by {
        let key = (res[i].0@, streams);
        lemma_hits_exact(rv, key);
        assert(rv[j] == run_view(runs[j]));
        assert(rv[j].len() == runs[j]@.len());
        if positions_view(res[i].1).contains((j, k)) {
            let t = choose|t: int| 0 <= t < hits(rv, key).len() && hits(rv, key)[t] == (j, k);
            assert(hits(rv, key)[t] == (j, k));
        }
    }
    assert forall|i: int, t: int| 0 <= i < res.len() && 0 <= t < positions_view(res[i].1).len() implies {
        let h = #[trigger] positions_view(res[i].1)[t];
        0 <= h.0 < runs.len() && 0 <= h.1 < runs[h.0]@.len() && rv[h.0][h.1] == (res[i].0@, streams)
    } by {
        let key = (res[i].0@, streams);
        lemma_hits_exact(rv, key);
        let h = hits(rv, key)[t];
        assert(rv[h.0] == run_view(runs[h.0]));
    }
}

} // verus!
