//! List-0 comparison of two extractors whose frame numbering may differ:
//! only backward-reference (`source == -1`) vectors are compared, the second
//! dump's frame numbers are first mapped to display order, and its frames past
//! the first dump's last frame are dropped.

use vstd::prelude::*;
use crate::key::Key;
use crate::mv_compare::{MvRow, Columns, compare_frames, is_comparison, diffs_view, list0, non_zero, count_non_zero};

verus! {

broadcast use vstd::seq_lib::group_seq_lib_default;

/// Result of a list-0 comparison: how many vectors of each side take part
/// (the non-zero-size ones, as the comparison counts them) and how many
/// differences were found.
pub struct DiffSummary {
    pub method0_rows: usize,
    pub method9_rows: usize,
    pub diffs: usize,
}

/// Largest frame number of the rows, `0` when there are none.
pub open spec fn max_frame(rows: Seq<MvRow>) -> int
    decreases rows.len(),
{
    if rows.len() == 0 {
        0
    } else if rows.len() == 1 {
        rows[0].key.frame as int
    } else {
        let m = max_frame(rows.drop_last());
        let f = rows.last().key.frame as int;
        if m >= f { m } else { f }
    }
}

/// The row with its frame number replaced by the frame's display rank, when
/// the rank table covers the frame.
pub open spec fn remap(r: MvRow, rank_of: Seq<i32>) -> MvRow {
    if 0 <= r.key.frame < rank_of.len() {
        MvRow { key: Key { frame: rank_of[r.key.frame as int], ..r.key }, ..r }
    } else {
        r
    }
}

pub open spec fn remapper(rank_of: Seq<i32>) -> spec_fn(MvRow) -> MvRow {
    |r: MvRow| remap(r, rank_of)
}

pub open spec fn list0_upto(max: int) -> spec_fn(MvRow) -> bool {
    |r: MvRow| r.key.source == -1 && r.key.frame <= max
}

/// The rows of the first dump that take part in a list-0 comparison.
pub open spec fn list0_first(method0: Seq<MvRow>) -> Seq<MvRow> {
    method0.filter(list0())
}

/// The rows of the second dump that take part, after remapping.
pub open spec fn list0_second(method0: Seq<MvRow>, method9: Seq<MvRow>, rank_of: Seq<i32>) -> Seq<MvRow> {
    method9.map_values(remapper(rank_of)).filter(list0_upto(max_frame(list0_first(method0))))
}

/// Compares the list-0 vectors of `method0` against those of `method9`,
/// whose frame numbers are decode positions mapped to display order by
/// `rank_of`. Returns the counts of compared vectors (zero-size vectors
/// left out, as in the comparison) and the differences.
pub fn list0_diff(method0: &Vec<MvRow>, method9: &Vec<MvRow>, rank_of: &Vec<i32>) -> (res: (DiffSummary, Vec<(Key, String)>))
    ensures
        res.0.method0_rows == list0_first(method0@).filter(non_zero()).len(),
        res.0.method9_rows == list0_second(method0@, method9@, rank_of@).filter(non_zero()).len(),
        res.0.diffs == res.1@.len(),
        is_comparison(Columns::Endpoints, list0_first(method0@), list0_second(method0@, method9@, rank_of@), diffs_view(res.1@)),
{
    let mut first: Vec<MvRow> = Vec::new();
    let mut max: i32 = 0;
    let mut i: usize = 0;
    proof {
        reveal(Seq::filter);
        assert(method0@.take(0) =~= Seq::<MvRow>::empty());
        assert(first@ =~= method0@.take(0).filter(list0()));
    }
    while i < method0.len()
        invariant
            i <= method0@.len(),
            first@ == method0@.take(i as int).filter(list0()),
            max as int == max_frame(first@),
        decreases method0@.len() - i,
    {
        let r = &method0[i];
        proof {
            assert(method0@.take(i + 1) =~= method0@.take(i as int).push(*r));
            method0@.take(i as int).lemma_filter_push(*r, list0());
        }
        if r.key.source == -1 {
            let ghost before = first@;
            if first.len() == 0 || r.key.frame > max {
                max = r.key.frame;
            }
            first.push(r.copy_row());
            proof {
                assert(first@.drop_last() =~= before);
            }
        }
        i += 1;
    }
    proof {
        assert(method0@.take(i as int) =~= method0@);
    }
    let mut second: Vec<MvRow> = Vec::new();
    let mut j: usize = 0;
    let ghost mapped = method9@.map_values(remapper(rank_of@));
    proof {
        reveal(Seq::filter);
        assert(mapped.take(0) =~= Seq::<MvRow>::empty());
        assert(second@ =~= mapped.take(0).filter(list0_upto(max as int)));
    }
    while j < method9.len()
        invariant
            j <= method9@.len(),
            mapped == method9@.map_values(remapper(rank_of@)),
            second@ == mapped.take(j as int).filter(list0_upto(max as int)),
        decreases method9@.len() - j,
    {
        let mut r = method9[j].copy_row();
        let f = r.key.frame;
        if 0 <= f && (f as usize) < rank_of.len() {
            r.key.frame = rank_of[f as usize];
        }
        proof {
            assert(r == remap(method9@[j as int], rank_of@));
            assert(mapped.take(j + 1) =~= mapped.take(j as int).push(r));
            mapped.take(j as int).lemma_filter_push(r, list0_upto(max as int));
        }
        if r.key.source == -1 && r.key.frame <= max {
            second.push(r);
        }
        j += 1;
    }
    proof {
        assert(mapped.take(j as int) =~= mapped);
    }
    let diffs = compare_frames(&first, &second);
    let summary = DiffSummary {
        method0_rows: count_non_zero(&first),
        method9_rows: count_non_zero(&second),
        diffs: diffs.len(),
    };
    (summary, diffs)
}

} // verus!
