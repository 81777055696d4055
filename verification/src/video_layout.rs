//! Layout of the motion-vector videos: which frames are drawn, what each
//! segment of a side-by-side video shows and where, and the texts written
//! on the frames.

use vstd::prelude::*;
use vstd::string::*;
use crate::text::{decimal_text, int_text};
use crate::motion_vector::{get_max_frame, max_frame};

verus! {

broadcast use vstd::seq_lib::group_seq_lib_default;

/// What a segment of a side-by-side video shows.
#[derive(PartialEq, Eq, Structural, Debug, Clone, Copy)]
pub enum SegmentContent {
    /// The source video's frame.
    Video,
    /// The motion vectors of the dataset at this position.
    Vectors(usize),
    /// Nothing: a black segment.
    Blank,
}

/// One segment of a side-by-side frame: its left edge, what it shows, and
/// whether a dividing line is drawn on its left edge.
#[derive(PartialEq, Eq, Structural, Debug, Clone, Copy)]
pub struct Segment {
    pub x_offset: i32,
    pub content: SegmentContent,
    pub divider: bool,
}

/// The segments of a side-by-side frame and its width.
pub struct CombinedLayout {
    pub width: i32,
    pub segments: Vec<Segment>,
}

/// Segments of a side-by-side video of `n` motion-vector datasets: one per
/// dataset and one for the video, or the video alone.
pub open spec fn segment_count(n: int) -> int {
    if n == 0 {
        1
    } else {
        n + 1
    }
}

/// What segment `idx` shows when the video is at segment `video_idx`: the
/// video there, else the datasets in order around it; blank where no
/// dataset is left.
pub open spec fn segment_content(idx: int, video_idx: int, n: int) -> SegmentContent {
    if idx == video_idx {
        SegmentContent::Video
    } else {
        let m = if idx < video_idx { idx } else { idx - 1 };
        if 0 <= m < n {
            SegmentContent::Vectors(m as usize)
        } else {
            SegmentContent::Blank
        }
    }
}

/// Segment `idx` of a side-by-side frame whose segments are `w` wide.
pub open spec fn segment_at(idx: int, video_idx: int, n: int, w: int) -> Segment {
    Segment { x_offset: (idx * w) as i32, content: segment_content(idx, video_idx, n), divider: idx > 0 }
}

proof fn lemma_scaled_within(idx: int, count: int, w: int)
    requires
        0 <= idx <= count,
        i32::MIN <= w * count <= i32::MAX,
    ensures
        i32::MIN <= idx * w <= i32::MAX,
{
    if w >= 0 {
        assert(0 <= idx * w <= w * count) by (nonlinear_arith)
            requires
                0 <= idx <= count,
                w >= 0,
        ;
    } else {
        assert(w * count <= idx * w <= 0) by (nonlinear_arith)
            requires
                0 <= idx <= count,
                w < 0,
        ;
    }
}

/// The layout of a side-by-side frame of `n_dataframes` motion-vector
/// datasets and the video, each segment `frame_width` wide; the video is
/// at `video_segment_index`, after the datasets when none is given.
pub fn combined_layout(n_dataframes: usize, video_segment_index: Option<i32>, frame_width: i32) -> (res: CombinedLayout)
    requires
        n_dataframes < i32::MAX,
        i32::MIN <= frame_width * segment_count(n_dataframes as int) <= i32::MAX,
    ensures
        res.width == frame_width * segment_count(n_dataframes as int),
        res.segments@.len() == segment_count(n_dataframes as int),
        forall|i: int| 0 <= i < res.segments@.len() ==> #[trigger] res.segments@[i] == segment_at(
            i,
            match video_segment_index {
                Some(v) => v as int,
                None => n_dataframes as int,
            },
            n_dataframes as int,
            frame_width as int,
        ),
{
    let n = n_dataframes as i32;
    let count: i32 = if n == 0 { 1 } else { n + 1 };
    let video_idx: i32 = match video_segment_index {
        Some(v) => v,
        None => n,
    };
    let mut segments: Vec<Segment> = Vec::new();
    let mut idx: i32 = 0;
    while idx < count
        invariant
            0 <= idx <= count,
            count == segment_count(n_dataframes as int),
            n == n_dataframes,
            video_idx == match video_segment_index {
                Some(v) => v as int,
                None => n_dataframes as int,
            },
            i32::MIN <= frame_width * count <= i32::MAX,
            segments@.len() == idx,
            forall|i: int| 0 <= i < idx ==> #[trigger] segments@[i] == segment_at(
                i,
                video_idx as int,
                n_dataframes as int,
                frame_width as int,
            ),
        decreases count - idx,
    {
        proof {
            lemma_scaled_within(idx as int, count as int, frame_width as int);
        }
        let content = if idx == video_idx {
            SegmentContent::Video
        } else {
            let m = if idx < video_idx { idx } else { idx - 1 };
            if 0 <= m && m < n {
                SegmentContent::Vectors(m as usize)
            } else {
                SegmentContent::Blank
            }
        };
        segments.push(Segment { x_offset: idx * frame_width, content, divider: idx > 0 });
        idx += 1;
    }
    CombinedLayout { width: frame_width * count, segments }
}

/// The segment that shows dataset `m` when the video is at segment
/// `video_idx`.
pub open spec fn dataset_segment(m: int, video_idx: int) -> int {
    if m < video_idx {
        m
    } else {
        m + 1
    }
}

/// With the video placed at one of the segments, a side-by-side frame
/// shows the video in exactly that segment and every dataset in exactly
/// one segment, and leaves no segment blank.
pub proof fn lemma_layout_shows_each_once(n: int, video_idx: int)
    requires
        0 <= n < i32::MAX,
        0 <= video_idx < segment_count(n),
    ensures
        forall|i: int| 0 <= i < segment_count(n) ==> (#[trigger] segment_content(i, video_idx, n) == SegmentContent::Video <==> i == video_idx),
        forall|i: int| 0 <= i < segment_count(n) ==> #[trigger] segment_content(i, video_idx, n) != SegmentContent::Blank,
        forall|m: int| 0 <= m < n ==> 0 <= #[trigger] dataset_segment(m, video_idx) < segment_count(n)
            && segment_content(dataset_segment(m, video_idx), video_idx, n) == SegmentContent::Vectors(m as usize),
        forall|j: int, m: int| 0 <= j < segment_count(n) && 0 <= m < n
            && #[trigger] segment_content(j, video_idx, n) == SegmentContent::Vectors(m as usize)
            ==> j == #[trigger] dataset_segment(m, video_idx),
{
    assert forall|j: int, m: int| 0 <= j < segment_count(n) && 0 <= m < n
        && #[trigger] segment_content(j, video_idx, n) == SegmentContent::Vectors(m as usize)
        implies j == #[trigger] dataset_segment(m, video_idx) by {
        let k = if j < video_idx { j } else { j - 1 };
        assert(j != video_idx);
        assert(0 <= k < n);
        assert(k as usize == m as usize);
    }
}

/// The largest last frame over motion-vector datasets, or 0 when there are
/// none.
pub open spec fn max_frame_over(dfs: Seq<Seq<i32>>) -> i32
    decreases dfs.len(),
{
    if dfs.len() == 0 {
        0
    } else {
        let m = max_frame_over(dfs.drop_last());
        let x = max_frame(dfs.last());
        if dfs.len() == 1 || x > m {
            x
        } else {
            m
        }
    }
}

/// The last frame over several datasets is the largest of their last
/// frames: no dataset ends later, and it is the last frame of one of them
/// when there is any.
pub proof fn lemma_last_frame_over_is_largest(dfs: Seq<Seq<i32>>)
    ensures
        forall|i: int| 0 <= i < dfs.len() ==> max_frame(#[trigger] dfs[i]) <= max_frame_over(dfs),
        dfs.len() > 0 ==> exists|i: int| 0 <= i < dfs.len() && max_frame_over(dfs) == max_frame(#[trigger] dfs[i]),
    decreases dfs.len(),
{
    if dfs.len() > 0 {
        let p = dfs.drop_last();
        lemma_last_frame_over_is_largest(p);
        assert forall|i: int| 0 <= i < dfs.len() implies max_frame(#[trigger] dfs[i]) <= max_frame_over(dfs) by {
            if i < p.len() {
                assert(dfs[i] == p[i]);
            }
        }
        if max_frame_over(dfs) == max_frame(dfs.last()) {
            assert(dfs[dfs.len() - 1] == dfs.last());
        } else {
            let i = choose|i: int| 0 <= i < p.len() && max_frame_over(p) == max_frame(#[trigger] p[i]);
            assert(dfs[i] == p[i]);
        }
    }
}

pub open spec fn frame_lists(v: Seq<Vec<i32>>) -> Seq<Seq<i32>> {
    v.map_values(|f: Vec<i32>| f@)
}

/// The last frame number in any of the datasets (each given by its
/// vectors' frame numbers), 0 when there is no dataset.
pub fn last_frame_over(dfs: &Vec<Vec<i32>>) -> (res: i32)
    ensures
        res == max_frame_over(frame_lists(dfs@)),
        forall|i: int| 0 <= i < dfs@.len() ==> max_frame(#[trigger] dfs@[i]@) <= res,
        dfs@.len() > 0 ==> exists|i: int| 0 <= i < dfs@.len() && res == max_frame(#[trigger] dfs@[i]@),
{
    let mut best: i32 = 0;
    let mut i: usize = 0;
    while i < dfs.len()
        invariant
            i <= dfs@.len(),
            best == max_frame_over(frame_lists(dfs@).take(i as int)),
        decreases dfs@.len() - i,
    {
        proof {
            assert(frame_lists(dfs@).take(i + 1).drop_last() =~= frame_lists(dfs@).take(i as int));
            assert(frame_lists(dfs@).take(i + 1).last() == dfs@[i as int]@);
        }
        let x = get_max_frame(&dfs[i]);
        if i == 0 || x > best {
            best = x;
        }
        i += 1;
    }
    proof {
        assert(frame_lists(dfs@).take(i as int) =~= frame_lists(dfs@));
        let fl = frame_lists(dfs@);
        lemma_last_frame_over_is_largest(fl);
        assert forall|j: int| 0 <= j < dfs@.len() implies max_frame(#[trigger] dfs@[j]@) <= best by {
            assert(fl[j] == dfs@[j]@);
        }
        if dfs@.len() > 0 {
            let j = choose|j: int| 0 <= j < fl.len() && max_frame_over(fl) == max_frame(#[trigger] fl[j]);
            assert(fl[j] == dfs@[j]@);
        }
    }
    best
}

/// The last frame a side-by-side video draws: the later of the datasets'
/// last frame and the video's frame count, but not past `max_frames`; 0
/// when that leaves no frame. Frames are drawn from 1 up to it.
pub fn last_combined_frame(max_csv_frames: i32, total_video_frames: i32, max_frames: i32) -> (last: i32)
    ensures
        ({
            let num = if max_csv_frames > total_video_frames { max_csv_frames as int } else { total_video_frames as int };
            let end = if num < max_frames { num } else { max_frames as int };
            last == if end < 1 { 0 } else { end }
        }),
{
    let num = if max_csv_frames > total_video_frames { max_csv_frames } else { total_video_frames };
    let end = if num < max_frames { num } else { max_frames };
    if end < 1 {
        0
    } else {
        end
    }
}

/// Whether progress is reported once `done` of `total` frames are drawn:
/// at every tenth of a video of more than ten frames.
pub fn progress_due(done: u64, total: u64) -> (res: bool)
    ensures
        res == (total > 10 && done % (total / 10) == 0),
{
    total > 10 && done % (total / 10) == 0
}

/// The frame numbers of a dataset, each once, in increasing order.
pub fn distinct_frames(frames: &Vec<i32>) -> (res: Vec<i32>)
    ensures
        forall|a: int, b: int| 0 <= a < b < res@.len() ==> (#[trigger] res@[a]) < (#[trigger] res@[b]),
        forall|x: i32| #[trigger] res@.contains(x) <==> frames@.contains(x),
{
    let mut out: Vec<i32> = Vec::new();
    let mut i: usize = 0;
    while i < frames.len()
        invariant
            i <= frames@.len(),
            forall|a: int, b: int| 0 <= a < b < out@.len() ==> (#[trigger] out@[a]) < (#[trigger] out@[b]),
            forall|x: i32| #[trigger] out@.contains(x) <==> frames@.take(i as int).contains(x),
        decreases frames@.len() - i,
    {
        let f = frames[i];
        let mut p: usize = 0;
        while p < out.len() && out[p] < f
            invariant
                p <= out@.len(),
                forall|q: int| 0 <= q < p ==> out@[q] < f,
            decreases out@.len() - p,
        {
            p += 1;
        }
        proof {
            assert(frames@.take(i + 1) =~= frames@.take(i as int).push(f));
        }
        if p < out.len() && out[p] == f {
            proof {
                assert forall|x: i32| #[trigger] out@.contains(x) <==> frames@.take(i + 1).contains(x) by {
                    if x == f {
                        assert(out@[p as int] == f);
                    }
                    if frames@.take(i + 1).contains(x) && x != f {
                        assert(frames@.take(i as int).contains(x));
                    }
                }
            }
        } else {
            let ghost before = out@;
            out.insert(p, f);
            proof {
                assert(out@ =~= before.take(p as int).push(f) + before.skip(p as int));
                assert forall|a: int, b: int| 0 <= a < b < out@.len() implies (#[trigger] out@[a]) < (#[trigger] out@[b]) by {
                    if a < p && b > p {
                        assert(f < before[p as int]);
                    } else if a == p {
                        assert(before[p as int] > f);
                    }
                }
                assert forall|x: i32| #[trigger] out@.contains(x) <==> frames@.take(i + 1).contains(x) by {
                    if out@.contains(x) {
                        let k = choose|k: int| 0 <= k < out@.len() && out@[k] == x;
                        if k == p {
                            assert(frames@.take(i + 1)[i as int] == x);
                        } else {
                            if k < p {
                                assert(before[k] == x);
                            } else {
                                assert(before[k - 1] == x);
                            }
                            assert(before.contains(x));
                            assert(frames@.take(i as int).contains(x));
                            let j = choose|j: int| 0 <= j < i && frames@.take(i as int)[j] == x;
                            assert(frames@.take(i + 1)[j] == x);
                        }
                    }
                    if frames@.take(i + 1).contains(x) {
                        if x == f {
                            assert(out@[p as int] == f);
                        } else {
                            assert(frames@.take(i as int).contains(x));
                            assert(before.contains(x));
                            let k = choose|k: int| 0 <= k < before.len() && before[k] == x;
                            if k < p {
                                assert(out@[k] == x);
                            } else {
                                assert(out@[k + 1] == x);
                            }
                        }
                    }
                }
            }
        }
        i += 1;
    }
    proof {
        assert(frames@.take(i as int) =~= frames@);
    }
    out
}


/// The texts joined with `sep` between them.
pub open spec fn joined(xs: Seq<Seq<char>>, sep: Seq<char>) -> Seq<char>
    decreases xs.len(),
{
    if xs.len() == 0 {
        Seq::empty()
    } else if xs.len() == 1 {
        xs[0]
    } else {
        joined(xs.drop_last(), sep) + sep + xs.last()
    }
}

/// The first ten frame numbers, comma-separated, and `...` when there are
/// more.
pub open spec fn frames_preview(frames: Seq<i32>) -> Seq<char> {
    let shown = if frames.len() > 10 { frames.take(10) } else { frames };
    "Frames in data: "@ + joined(shown.map_values(|f: i32| int_text(f as int)), ", "@) + if frames.len() > 10 {
        "..."@
    } else {
        ""@
    }
}

/// The line listing the first frames of a dataset (given in order).
pub fn frames_preview_text(frames: &Vec<i32>) -> (res: String)
    ensures
        res@ == frames_preview(frames@),
{
    let n: usize = if frames.len() > 10 { 10 } else { frames.len() };
    let ghost shown = if frames@.len() > 10 { frames@.take(10) } else { frames@ };
    let ghost texts = shown.map_values(|f: i32| int_text(f as int));
    let mut line = String::new();
    let mut i: usize = 0;
    proof {
        assert(shown.len() == n);
        assert(texts.take(0) =~= Seq::<Seq<char>>::empty());
        assert(line@ =~= joined(texts.take(0), ", "@));
    }
    while i < n
        invariant
            i <= n,
            n == shown.len(),
            n <= frames@.len(),
            shown == if frames@.len() > 10 { frames@.take(10) } else { frames@ },
            texts == shown.map_values(|f: i32| int_text(f as int)),
            line@ == joined(texts.take(i as int), ", "@),
        decreases n - i,
    {
        let ghost prev = line@;
        if i > 0 {
            line.append(", ");
        }
        line.append(decimal_text(frames[i] as i128).as_str());
        proof {
            assert(shown[i as int] == frames@[i as int]);
            assert(texts.take(i + 1).drop_last() =~= texts.take(i as int));
            assert(texts.take(i + 1).last() == int_text(frames@[i as int] as int));
            if i == 0 {
                assert(line@ =~= joined(texts.take(1), ", "@));
            } else {
                assert(line@ =~= prev + ", "@ + int_text(frames@[i as int] as int));
            }
        }
        i += 1;
    }
    proof {
        assert(texts.take(n as int) =~= texts);
    }
    let mut out = "Frames in data: ".to_owned();
    out.append(line.as_str());
    if frames.len() > 10 {
        out.append("...");
    }
    proof {
        reveal_strlit("");
        assert(out@ =~= frames_preview(frames@));
    }
    out
}

/// The caption of a frame: `Frame: <number>`.
pub fn frame_caption(frame_num: i32) -> (res: String)
    ensures
        res@ == "Frame: "@ + int_text(frame_num as int),
{
    let mut s = "Frame: ".to_owned();
    s.append(decimal_text(frame_num as i128).as_str());
    s
}

/// The count line of a frame: `Vectors: <number drawn>`.
pub fn vectors_caption(count: usize) -> (res: String)
    ensures
        res@ == "Vectors: "@ + int_text(count as int),
{
    let mut s = "Vectors: ".to_owned();
    s.append(decimal_text(count as i128).as_str());
    s
}

} // verus!
