//! Reading the results table the benchmark driver prints.
//!
//! The table starts after a header line naming the `Method` and
//! `ms/frame(strm)` columns; its rows are `|`-separated. Rules, blank lines
//! and the legend lines after the table are skipped, as are rows with fewer
//! than nine columns or an unreadable frame count.

use vstd::prelude::*;
use crate::text::{chars_of, string_from_chars};
use crate::scan::{
    TrimSet, trim, trim_chars, lines, views, split_lines, has_prefix, starts_with, contains_text,
    find_text, trimmed_pieces, split_trimmed, i32_of, parse_i32, replace_text, replace_text_exec,
};

verus! {

/// The header line of the results table.
pub open spec fn is_table_header(t: Seq<char>) -> bool {
    contains_text(t, "Method"@) && contains_text(t, "ms/frame(strm)"@)
}

/// A blank line or a horizontal rule.
pub open spec fn is_rule(t: Seq<char>) -> bool {
    t.len() == 0 || t[0] == '\u{2014}' || has_prefix(t, "---"@) || has_prefix(t, "==="@)
}

/// One of the legend lines printed under the table.
pub open spec fn is_legend(t: Seq<char>) -> bool {
    has_prefix(t, "ms/"@) || has_prefix(t, "CPU"@) || has_prefix(t, "Total"@)
}

/// Index of the first line that is the table header, once trimmed.
pub open spec fn header_line(ls: Seq<Seq<char>>) -> Option<int>
    decreases ls.len(),
{
    if ls.len() == 0 {
        None
    } else if is_table_header(trim(ls[0], TrimSet::Whitespace)) {
        Some(0)
    } else {
        match header_line(ls.drop_first()) {
            Some(i) => Some(i + 1),
            None => None,
        }
    }
}

/// A table row: method, latency, throughput, CPU time per frame, total
/// memory, memory per stream (all as text, `ms` units removed) and frames.
pub type RowText = (Seq<char>, Seq<char>, Seq<char>, Seq<char>, Seq<char>, Seq<char>, i32);

/// The row a line of the table holds, if any.
pub open spec fn table_row() -> spec_fn(Seq<char>) -> Option<RowText> {
    |l: Seq<char>| {
        let t = trim(l, TrimSet::Whitespace);
        let parts = trimmed_pieces(t, '|');
        if is_table_header(t) || is_rule(t) || is_legend(t) || parts.len() < 9 {
            None
        } else {
            match i32_of(parts[8]) {
                Some(frames) => Some((
                    parts[0],
                    trim(replace_text(parts[1], "ms"@, Seq::<char>::empty()), TrimSet::Whitespace),
                    parts[2],
                    trim(replace_text(parts[3], "ms"@, Seq::<char>::empty()), TrimSet::Whitespace),
                    parts[6],
                    parts[7],
                    frames,
                )),
                None => None,
            }
        }
    }
}

/// The rows of the results table printed in `text`, in order.
pub open spec fn table_rows(text: Seq<char>) -> Seq<RowText> {
    let ls = lines(text);
    match header_line(ls) {
        Some(h) => ls.skip(h + 1).filter_map(table_row()),
        None => seq![],
    }
}

/// A row of the results table; the numeric columns other than the frame
/// count are kept as text.
pub struct TableRow {
    pub method: String,
    pub time_per_frame: String,
    pub fps: String,
    pub cpu_ms_per_frame: String,
    pub memory: String,
    pub mem_per_stream: String,
    pub frames: i32,
}

pub open spec fn row_text(r: TableRow) -> RowText {
    (r.method@, r.time_per_frame@, r.fps@, r.cpu_ms_per_frame@, r.memory@, r.mem_per_stream@, r.frames)
}

pub open spec fn rows_text(rs: Seq<TableRow>) -> Seq<RowText> {
    rs.map_values(|r: TableRow| row_text(r))
}

fn is_table_header_exec(t: &Vec<char>) -> (res: bool)
    ensures
        res == is_table_header(t@),
{
    find_text(t, &chars_of("Method")) && find_text(t, &chars_of("ms/frame(strm)"))
}

fn first_header(ls: &Vec<Vec<char>>) -> (res: Option<usize>)
    ensures
        match res {
            Some(h) => header_line(views(ls@)) == Some(h as int) && h < ls@.len(),
            None => header_line(views(ls@)) is None,
        },
{
    let ghost lv = views(ls@);
    let mut i: usize = 0;
    proof {
        assert(lv.skip(0) =~= lv);
    }
    while i < ls.len()
        invariant
            i <= ls@.len(),
            lv == views(ls@),
            header_line(lv) == match header_line(lv.skip(i as int)) {
                Some(q) => Some(q + i),
                None => None,
            },
        decreases ls@.len() - i,
    {
        proof {
            assert(lv.skip(i as int)[0] == ls@[i as int]@);
            assert(lv.skip(i as int).drop_first() =~= lv.skip(i + 1));
        }
        let t = trim_chars(&ls[i], &TrimSet::Whitespace);
        if is_table_header_exec(&t) {
            return Some(i);
        }
        i += 1;
    }
    proof {
        assert(lv.skip(i as int) =~= Seq::<Seq<char>>::empty());
    }
    None
}

/// The row a line holds, if any.
fn line_row(l: &Vec<char>) -> (res: Option<TableRow>)
    ensures
        match res {
            Some(r) => table_row()(l@) == Some(row_text(r)),
            None => table_row()(l@) is None,
        },
{
    let t = trim_chars(l, &TrimSet::Whitespace);
    let parts = split_trimmed(&t, '|');
    let ghost pv = views(parts@);
    if is_table_header_exec(&t) {
        return None;
    }
    if t.len() == 0 || t[0] == '\u{2014}' || starts_with(&t, &chars_of("---")) || starts_with(&t, &chars_of("===")) {
        return None;
    }
    if starts_with(&t, &chars_of("ms/")) || starts_with(&t, &chars_of("CPU")) || starts_with(&t, &chars_of("Total")) {
        return None;
    }
    if parts.len() < 9 {
        return None;
    }
    proof {
        assert forall|k: int| 0 <= k < parts@.len() implies pv[k] == (#[trigger] parts@[k])@ by {}
    }
    let frames = match parse_i32(&parts[8]) {
        Some(f) => f,
        None => return None,
    };
    let ms = chars_of("ms");
    let none: Vec<char> = Vec::new();
    proof {
        reveal_strlit("ms");
        assert(none@ =~= Seq::<char>::empty());
    }
    let time_per_frame = trim_chars(&replace_text_exec(&parts[1], &ms, &none), &TrimSet::Whitespace);
    let cpu = trim_chars(&replace_text_exec(&parts[3], &ms, &none), &TrimSet::Whitespace);
    let r = TableRow {
        method: string_from_chars(&parts[0]),
        time_per_frame: string_from_chars(&time_per_frame),
        fps: string_from_chars(&parts[2]),
        cpu_ms_per_frame: string_from_chars(&cpu),
        memory: string_from_chars(&parts[6]),
        mem_per_stream: string_from_chars(&parts[7]),
        frames,
    };
    Some(r)
}

/// The rows of the results table in the benchmark driver's output, in
/// order: the non-rule, non-legend lines after the first header line with
/// at least nine `|`-separated columns and a readable frame count.
pub fn parse_output_table(output_text: &str) -> (res: Vec<TableRow>)
    ensures
        rows_text(res@) == table_rows(output_text@),
{
    let ls = split_lines(&chars_of(output_text));
    let ghost lv = views(ls@);
    let mut out: Vec<TableRow> = Vec::new();
    let h = match first_header(&ls) {
        Some(h) => h,
        None => {
            proof {
                assert(rows_text(out@) =~= table_rows(output_text@));
            }
            return out;
        },
    };
    let ghost body = lv.skip(h + 1);
    let n = ls.len();
    let mut i: usize = h + 1;
    proof {
        assert(body.take(0) =~= Seq::<Seq<char>>::empty());
        assert(rows_text(out@) =~= body.take(0).filter_map(table_row()));
    }
    while i < ls.len()
        invariant
            h < i <= ls@.len(),
            lv == views(ls@),
            body == lv.skip(h + 1),
            rows_text(out@) == body.take(i - h - 1).filter_map(table_row()),
        decreases ls@.len() - i,
    {
        proof {
            body.lemma_filter_map_take_succ(table_row(), i - h - 1);
            assert(body[i - h - 1] == ls@[i as int]@);
        }
        let ghost before = out@;
        match line_row(&ls[i]) {
            Some(r) => {
                out.push(r);
                proof {
                    assert(rows_text(out@) =~= rows_text(before).push(row_text(out@.last())));
                }
            },
            None => {},
        }
        proof {
            assert(rows_text(out@) =~= body.take(i - h).filter_map(table_row()));
        }
        i += 1;
    }
    proof {
        assert(body.take(i - h - 1) =~= body);
    }
    out
}

} // verus!
