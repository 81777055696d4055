//! What reading gives back of writing: the full motion-vector CSV a writer
//! produces reads back, line by line, as the fields that were written, and
//! the `flags` field reads back as the flags.

use vstd::prelude::*;
use crate::text::{digit_char, nat_text, int_text, hex_digit, hex_text};
use crate::scan::{
    TrimSet, is_ws, trims, trim, trim_start, trim_end, pieces, strip_cr, lines, trim_ws, trimmed_pieces,
    has_prefix, digit_val, all_digits, digits_value, unsigned_value, u64_of,
};
use crate::motion_vector::{MvCsvRow, MotionVectorCsvWriter, mv_header, mv_line, mv_csv, flags_value, lemma_csv_push};
use crate::csv_read::{mv_column, header_names, column_of, field_of, is_blank, line_fields, mv_csv_rows, CsvError, MV_FIELDS};

verus! {

broadcast use vstd::seq_lib::group_seq_lib_default;

/// `c` does not occur in `s`.
pub open spec fn lacks(s: Seq<char>, c: char) -> bool {
    forall|i: int| 0 <= i < s.len() ==> s[i] != c
}

/// The pieces joined with `sep` between them.
pub open spec fn join(xs: Seq<Seq<char>>, sep: char) -> Seq<char>
    decreases xs.len(),
{
    if xs.len() == 0 {
        seq![]
    } else if xs.len() == 1 {
        xs[0]
    } else {
        join(xs.drop_last(), sep).push(sep) + xs.last()
    }
}

proof fn lemma_pieces_plain_suffix(a: Seq<char>, b: Seq<char>, sep: char)
    requires
        lacks(b, sep),
    ensures
        pieces(a + b, sep) == pieces(a, sep).update(pieces(a, sep).len() - 1, pieces(a, sep).last() + b),
    decreases b.len(),
{
    crate::scan::lemma_pieces_nonempty(a, sep);
    if b.len() == 0 {
        assert(a + b =~= a);
        assert(pieces(a, sep).last() + b =~= pieces(a, sep).last());
        assert(pieces(a, sep).update(pieces(a, sep).len() - 1, pieces(a, sep).last()) =~= pieces(a, sep));
    } else {
        let b1 = b.drop_last();
        lemma_pieces_plain_suffix(a, b1, sep);
        assert((a + b).drop_last() =~= a + b1);
        assert((a + b).last() == b.last());
        crate::scan::lemma_pieces_nonempty(a + b1, sep);
        let p = pieces(a, sep);
        let q = pieces(a + b1, sep);
        assert(q == p.update(p.len() - 1, p.last() + b1));
        assert(q.last() == p.last() + b1);
        assert(q.last().push(b.last()) =~= p.last() + b);
        assert(q.update(q.len() - 1, q.last().push(b.last())) =~= p.update(p.len() - 1, p.last() + b));
    }
}

proof fn lemma_pieces_sep(a: Seq<char>, sep: char)
    ensures
        pieces(a.push(sep), sep) == pieces(a, sep).push(seq![]),
{
    assert(a.push(sep).drop_last() =~= a);
}

/// Splitting pieces joined with `sep` gives the pieces back, when none
/// holds `sep`.
pub proof fn lemma_split_join(xs: Seq<Seq<char>>, sep: char)
    requires
        xs.len() >= 1,
        forall|i: int| 0 <= i < xs.len() ==> lacks(#[trigger] xs[i], sep),
    ensures
        pieces(join(xs, sep), sep) == xs,
    decreases xs.len(),
{
    if xs.len() == 1 {
        lemma_pieces_plain_suffix(seq![], xs[0], sep);
        assert(Seq::<char>::empty() + xs[0] =~= xs[0]);
        assert(seq![Seq::<char>::empty()].update(0, Seq::<char>::empty() + xs[0]) =~= xs);
    } else {
        let ys = xs.drop_last();
        lemma_split_join(ys, sep);
        let j = join(ys, sep);
        lemma_pieces_sep(j, sep);
        lemma_pieces_plain_suffix(j.push(sep), xs.last(), sep);
        assert(Seq::<char>::empty() + xs.last() =~= xs.last());
        assert(ys.push(seq![]).update(ys.len() as int, xs.last()) =~= xs);
    }
}

/// Appending a line `c` and its line end adds `c` to the lines of a text
/// that is empty or ends a line.
proof fn lemma_lines_push(t: Seq<char>, c: Seq<char>)
    requires
        t.len() == 0 || t.last() == '\n',
        lacks(c, '\n'),
    ensures
        lines(t + c.push('\n')) == lines(t).push(strip_cr(c)),
{
    let s = t + c.push('\n');
    assert(s =~= (t + c).push('\n'));
    lemma_pieces_sep(t + c, '\n');
    lemma_pieces_plain_suffix(t, c, '\n');
    crate::scan::lemma_pieces_nonempty(t, '\n');
    let p = pieces(t, '\n');
    if t.len() > 0 {
        lemma_pieces_sep(t.drop_last(), '\n');
        assert(t.drop_last().push('\n') =~= t);
    }
    assert(p.last() =~= Seq::<char>::empty());
    assert(p.last() + c =~= c);
    let q = pieces(t + c, '\n');
    assert(q =~= p.drop_last().push(c));
    assert(pieces(s, '\n').drop_last() =~= q);
    let f = |l: Seq<char>| strip_cr(l);
    assert(q.map_values(f) =~= p.drop_last().map_values(f).push(strip_cr(c)));
}

proof fn lemma_nat_text_digits(n: nat)
    ensures
        forall|i: int| 0 <= i < nat_text(n).len() ==> 48 <= (#[trigger] nat_text(n)[i]) as int <= 57,
        nat_text(n).len() >= 1,
    decreases n,
{
    if n >= 10 {
        lemma_nat_text_digits(n / 10);
        let t = nat_text(n / 10);
        assert forall|i: int| 0 <= i < nat_text(n).len() implies 48 <= (#[trigger] nat_text(n)[i]) as int <= 57 by {
            if i < t.len() {
                assert(nat_text(n)[i] == t[i]);
            }
        }
    }
}

proof fn lemma_int_text_plain(v: int)
    ensures
        lacks(int_text(v), ','),
        lacks(int_text(v), '\n'),
        lacks(int_text(v), '\r'),
{
    if v < 0 {
        lemma_nat_text_digits((-v) as nat);
        let t = nat_text((-v) as nat);
        assert forall|i: int| 0 <= i < int_text(v).len() implies int_text(v)[i] != ',' && int_text(v)[i] != '\n' && int_text(v)[i] != '\r' by {
            if i > 0 {
                assert(int_text(v)[i] == t[i - 1]);
            }
        }
    } else {
        lemma_nat_text_digits(v as nat);
    }
}

proof fn lemma_hex_text_digits(n: nat)
    ensures
        forall|i: int| 0 <= i < hex_text(n).len() ==> {
            let x = (#[trigger] hex_text(n)[i]) as int;
            (48 <= x <= 57) || (97 <= x <= 102)
        },
        hex_text(n).len() >= 1,
    decreases n,
{
    if n >= 16 {
        lemma_hex_text_digits(n / 16);
        let t = hex_text(n / 16);
        assert forall|i: int| 0 <= i < hex_text(n).len() implies {
            let x = (#[trigger] hex_text(n)[i]) as int;
            (48 <= x <= 57) || (97 <= x <= 102)
        } by {
            if i < t.len() {
                assert(hex_text(n)[i] == t[i]);
            }
        }
    }
}

proof fn lemma_flags_text_plain(f: u64)
    ensures
        lacks("0x"@ + hex_text(f as nat), ','),
        lacks("0x"@ + hex_text(f as nat), '\n'),
        lacks("0x"@ + hex_text(f as nat), '\r'),
{
    reveal_strlit("0x");
    lemma_hex_text_digits(f as nat);
    let t = hex_text(f as nat);
    let s = "0x"@ + t;
    assert forall|i: int| 0 <= i < s.len() implies s[i] != ',' && s[i] != '\n' && s[i] != '\r' by {
        if i >= 2 {
            assert(s[i] == t[i - 2]);
        }
    }
}

/// The column names of the full CSV header, in order.
pub open spec fn mv_columns() -> Seq<Seq<char>> {
    Seq::new(MV_FIELDS as nat, |r: int| mv_column(r))
}

/// The header line without its line end.
pub open spec fn header_content() -> Seq<char> {
    "frame,source,w,h,src_x,src_y,dst_x,dst_y,flags,motion_x,motion_y,motion_scale"@
}

/// The fields of the CSV line of a full motion vector, in column order.
pub open spec fn mv_fields(v: MvCsvRow) -> Seq<Seq<char>> {
    seq![
        int_text(v.frame as int), int_text(v.source as int), int_text(v.w as int), int_text(v.h as int),
        v.src_x@, v.src_y@, v.dst_x@, v.dst_y@, "0x"@ + hex_text(v.flags as nat),
        v.motion_x@, v.motion_y@, v.motion_scale@,
    ]
}

/// A floating-point field as written: no comma, no line break.
pub open spec fn plain_field(s: Seq<char>) -> bool {
    lacks(s, ',') && lacks(s, '\n') && lacks(s, '\r')
}

/// The floating-point fields of a row are plain.
pub open spec fn plain_row(v: MvCsvRow) -> bool {
    &&& plain_field(v.src_x@)
    &&& plain_field(v.src_y@)
    &&& plain_field(v.dst_x@)
    &&& plain_field(v.dst_y@)
    &&& plain_field(v.motion_x@)
    &&& plain_field(v.motion_y@)
    &&& plain_field(v.motion_scale@)
}

proof fn lemma_fields_plain(v: MvCsvRow)
    requires
        plain_row(v),
    ensures
        mv_fields(v).len() == MV_FIELDS,
        forall|r: int| 0 <= r < MV_FIELDS ==> plain_field(#[trigger] mv_fields(v)[r]),
{
    lemma_int_text_plain(v.frame as int);
    lemma_int_text_plain(v.source as int);
    lemma_int_text_plain(v.w as int);
    lemma_int_text_plain(v.h as int);
    lemma_flags_text_plain(v.flags);
}

proof fn lemma_line_is_join(v: MvCsvRow)
    ensures
        mv_line(v) == join(mv_fields(v), ',').push('\n'),
{
    reveal_with_fuel(join, 13);
    reveal_strlit(",");
    reveal_strlit("\n");
    assert(mv_line(v) =~= join(mv_fields(v), ',').push('\n'));
}

proof fn lemma_header_is_join()
    ensures
        mv_header() == header_content().push('\n'),
        header_content() == join(mv_columns(), ','),
{
    reveal_with_fuel(join, 13);
    reveal_strlit("frame,source,w,h,src_x,src_y,dst_x,dst_y,flags,motion_x,motion_y,motion_scale\n");
    reveal_strlit("frame,source,w,h,src_x,src_y,dst_x,dst_y,flags,motion_x,motion_y,motion_scale");
    reveal_strlit("frame");
    reveal_strlit("source");
    reveal_strlit("w");
    reveal_strlit("h");
    reveal_strlit("src_x");
    reveal_strlit("src_y");
    reveal_strlit("dst_x");
    reveal_strlit("dst_y");
    reveal_strlit("flags");
    reveal_strlit("motion_x");
    reveal_strlit("motion_y");
    reveal_strlit("motion_scale");
    assert(mv_header() =~= header_content().push('\n'));
    let cs = mv_columns();
    assert(cs =~= seq!["frame"@, "source"@, "w"@, "h"@, "src_x"@, "src_y"@, "dst_x"@, "dst_y"@, "flags"@,
        "motion_x"@, "motion_y"@, "motion_scale"@]);
    assert(header_content() =~= join(cs, ','));
}

proof fn lemma_join_lacks(xs: Seq<Seq<char>>, sep: char, c: char)
    requires
        sep != c,
        forall|i: int| 0 <= i < xs.len() ==> lacks(#[trigger] xs[i], c),
    ensures
        lacks(join(xs, sep), c),
    decreases xs.len(),
{
    if xs.len() > 1 {
        let ys = xs.drop_last();
        lemma_join_lacks(ys, sep, c);
        let j = join(ys, sep);
        let t = j.push(sep) + xs.last();
        assert(lacks(xs.last(), c));
        assert forall|i: int| 0 <= i < t.len() implies t[i] != c by {
            if i < j.len() {
                assert(t[i] == j[i]);
            } else if i > j.len() {
                assert(t[i] == xs.last()[i - j.len() - 1]);
            }
        }
    } else if xs.len() == 1 {
        assert(lacks(xs[0], c));
    }
}

/// The line of a full motion vector without its line end.
pub open spec fn line_content(v: MvCsvRow) -> Seq<char> {
    join(mv_fields(v), ',')
}

proof fn lemma_content_plain(v: MvCsvRow)
    requires
        plain_row(v),
    ensures
        lacks(line_content(v), '\n'),
        lacks(line_content(v), '\r'),
        mv_line(v) == line_content(v).push('\n'),
        pieces(line_content(v), ',') == mv_fields(v),
{
    lemma_fields_plain(v);
    let fs = mv_fields(v);
    assert forall|i: int| 0 <= i < fs.len() implies lacks(#[trigger] fs[i], '\n') by {
        assert(plain_field(fs[i]));
    }
    assert forall|i: int| 0 <= i < fs.len() implies lacks(#[trigger] fs[i], '\r') by {
        assert(plain_field(fs[i]));
    }
    assert forall|i: int| 0 <= i < fs.len() implies lacks(#[trigger] fs[i], ',') by {
        assert(plain_field(fs[i]));
    }
    lemma_join_lacks(fs, ',', '\n');
    lemma_join_lacks(fs, ',', '\r');
    lemma_line_is_join(v);
    lemma_split_join(fs, ',');
}

/// The lines of the CSV text of a sequence of rows: the header, then one
/// line per row.
#[verifier::rlimit(30)]
proof fn lemma_csv_lines(rows: Seq<MvCsvRow>)
    requires
        forall|i: int| 0 <= i < rows.len() ==> plain_row(#[trigger] rows[i]),
    ensures
        lines(mv_csv(rows)) == seq![header_content()] + rows.map_values(|v: MvCsvRow| line_content(v)),
        mv_csv(rows).len() > 0 && mv_csv(rows).last() == '\n',
    decreases rows.len(),
{
    lemma_header_is_join();
    if rows.len() == 0 {
        assert(rows.map_values(|v: MvCsvRow| mv_line(v)) =~= Seq::<Seq<char>>::empty());
        assert(mv_csv(rows) =~= header_content().push('\n'));
        reveal_strlit("frame,source,w,h,src_x,src_y,dst_x,dst_y,flags,motion_x,motion_y,motion_scale");
        assert forall|i: int| 0 <= i < header_content().len() implies header_content()[i] != '\n' by {}
        lemma_lines_push(Seq::<char>::empty(), header_content());
        assert(Seq::<char>::empty() + header_content().push('\n') =~= header_content().push('\n'));
        assert(lines(Seq::<char>::empty()) =~= Seq::<Seq<char>>::empty());
        assert(forall|i: int| 0 <= i < header_content().len() ==> header_content()[i] != '\r');
        assert(strip_cr(header_content()) == header_content());
        assert(seq![header_content()] + rows.map_values(|v: MvCsvRow| line_content(v)) =~= seq![header_content()]);
    } else {
        let prev = rows.drop_last();
        let v = rows.last();
        assert forall|i: int| 0 <= i < prev.len() implies plain_row(#[trigger] prev[i]) by {
            assert(prev[i] == rows[i]);
        }
        lemma_csv_lines(prev);
        assert(prev.push(v) =~= rows);
        lemma_csv_push(mv_header(), prev, |r: MvCsvRow| mv_line(r), v);
        assert(mv_csv(rows) == mv_csv(prev) + mv_line(v));
        lemma_content_plain(v);
        let c = line_content(v);
        lemma_lines_push(mv_csv(prev), c);
        assert(strip_cr(c) == c) by {
            if c.len() > 0 {
                assert(c[c.len() - 1] != '\r');
            }
        }
        assert(mv_csv(rows) =~= mv_csv(prev) + c.push('\n'));
        assert(rows.map_values(|v: MvCsvRow| line_content(v)) =~= prev.map_values(|v: MvCsvRow| line_content(v)).push(c));
        assert(seq![header_content()] + rows.map_values(|v: MvCsvRow| line_content(v))
            =~= (seq![header_content()] + prev.map_values(|v: MvCsvRow| line_content(v))).push(c));
    }
}

proof fn lemma_trim_plain(s: Seq<char>)
    requires
        s.len() > 0,
        !is_ws(s[0]),
        !is_ws(s.last()),
    ensures
        trim(s, TrimSet::Whitespace) == s,
{
}

proof fn lemma_columns()
    ensures
        header_names(header_content()) == mv_columns(),
        forall|r: int| 0 <= r < MV_FIELDS ==> column_of(mv_columns(), r) == Some(r),
{
    lemma_header_is_join();
    let cs = mv_columns();
    reveal_strlit("frame");
    reveal_strlit("source");
    reveal_strlit("w");
    reveal_strlit("h");
    reveal_strlit("src_x");
    reveal_strlit("src_y");
    reveal_strlit("dst_x");
    reveal_strlit("dst_y");
    reveal_strlit("flags");
    reveal_strlit("motion_x");
    reveal_strlit("motion_y");
    reveal_strlit("motion_scale");
    assert forall|i: int| 0 <= i < cs.len() implies lacks(#[trigger] cs[i], ',') by {}
    lemma_split_join(cs, ',');
    assert forall|i: int| 0 <= i < cs.len() implies trim_ws()(#[trigger] cs[i]) == cs[i] by {
        lemma_trim_plain(cs[i]);
    }
    assert(header_names(header_content()) =~= cs);
    assert forall|a: int, b: int| 0 <= a < b < MV_FIELDS implies #[trigger] cs[a] != #[trigger] cs[b] by {
        if cs[a] == cs[b] {
            assert(cs[a].len() == cs[b].len());
            assert(cs[a][0] == cs[b][0]);
            if cs[a].len() > 4 {
                assert(cs[a][4] == cs[b][4]);
            }
            if cs[a].len() > 7 {
                assert(cs[a][7] == cs[b][7]);
            }
        }
    }
    assert forall|r: int| 0 <= r < MV_FIELDS implies column_of(cs, r) == Some(r) by {
        cs.index_of_first_ensures(mv_column(r));
        assert(cs[r] == mv_column(r));
        assert(cs.contains(mv_column(r)));
        let k = cs.index_of_first(mv_column(r))->0;
        if k < r {
            assert(cs[k] != cs[r]);
        }
    }
}

proof fn lemma_trim_start_keeps(s: Seq<char>, i: int)
    requires
        0 <= i < s.len(),
        !is_ws(s[i]),
    ensures
        exists|k: int| 0 <= k <= i && trim_start(s, TrimSet::Whitespace) == s.skip(k),
    decreases s.len(),
{
    if is_ws(s[0]) {
        lemma_trim_start_keeps(s.drop_first(), i - 1);
        let k = choose|k: int| 0 <= k <= i - 1 && trim_start(s.drop_first(), TrimSet::Whitespace) == s.drop_first().skip(k);
        assert(s.drop_first().skip(k) =~= s.skip(k + 1));
    } else {
        assert(s.skip(0) =~= s);
    }
}

proof fn lemma_trim_end_keeps(s: Seq<char>, i: int)
    requires
        0 <= i < s.len(),
        !is_ws(s[i]),
    ensures
        trim_end(s, TrimSet::Whitespace).len() > i,
    decreases s.len(),
{
    if is_ws(s.last()) {
        lemma_trim_end_keeps(s.drop_last(), i);
    }
}

/// A text holding a character other than whitespace is not blank.
proof fn lemma_not_blank(s: Seq<char>, i: int)
    requires
        0 <= i < s.len(),
        !is_ws(s[i]),
    ensures
        !is_blank(s),
{
    lemma_trim_start_keeps(s, i);
    let k = choose|k: int| 0 <= k <= i && trim_start(s, TrimSet::Whitespace) == s.skip(k);
    lemma_trim_end_keeps(s.skip(k), i - k);
}

/// Where `f` gives a value for every element, `filter_map` keeps them all.
proof fn lemma_filter_map_all<A, B>(s: Seq<A>, f: spec_fn(A) -> Option<B>, out: Seq<B>)
    requires
        out.len() == s.len(),
        forall|i: int| 0 <= i < s.len() ==> f(#[trigger] s[i]) == Some(out[i]),
    ensures
        s.filter_map(f) == out,
    decreases s.len(),
{
    if s.len() > 0 {
        let p = s.drop_last();
        assert forall|i: int| 0 <= i < p.len() implies f(#[trigger] p[i]) == Some(out.drop_last()[i]) by {
            assert(p[i] == s[i]);
        }
        lemma_filter_map_all(p, f, out.drop_last());
        assert(f(s.last()) == Some(out.last()));
        assert(out =~= out.drop_last().push(out.last()));
    } else {
        assert(out =~= Seq::<B>::empty());
    }
}

/// The fields a read gives for a written row.
pub open spec fn read_back(v: MvCsvRow) -> Seq<Option<Seq<char>>> {
    mv_fields(v).map_values(|f: Seq<char>| Some(f))
}

/// Reading the CSV text of a sequence of full motion vectors gives back, for
/// every vector in order, the text of each of its fields as written, when
/// its floating-point fields hold no comma or line break.
pub proof fn lemma_csv_round_trip(rows: Seq<MvCsvRow>)
    requires
        forall|i: int| 0 <= i < rows.len() ==> plain_row(#[trigger] rows[i]),
    ensures
        mv_csv_rows(mv_csv(rows)) == Ok::<Seq<Seq<Option<Seq<char>>>>, CsvError>(rows.map_values(|v: MvCsvRow| read_back(v))),
{
    lemma_csv_lines(rows);
    lemma_columns();
    let ls = lines(mv_csv(rows));
    assert(ls[0] == header_content());
    let names = header_names(ls[0]);
    assert(names == mv_columns());
    assert(column_of(names, 0) == Some(0int));
    assert(column_of(names, 4) == Some(4int));
    assert(column_of(names, 5) == Some(5int));
    let contents = rows.map_values(|v: MvCsvRow| line_content(v));
    assert(ls.drop_first() =~= contents);
    let f = line_fields(names);
    let out = rows.map_values(|v: MvCsvRow| read_back(v));
    assert forall|i: int| 0 <= i < contents.len() implies f(#[trigger] contents[i]) == Some(out[i]) by {
        let v = rows[i];
        let c = line_content(v);
        assert(contents[i] == c);
        lemma_content_plain(v);
        lemma_fields_plain(v);
        lemma_int_text_plain(v.frame as int);
        lemma_nat_text_digits(if v.frame < 0 { (-v.frame) as nat } else { v.frame as nat });
        let f0 = int_text(v.frame as int);
        assert(f0.len() >= 1);
        assert(!is_ws(f0[0]));
        crate::scan::lemma_pieces_nonempty(c, ',');
        assert(pieces(c, ',')[0] == f0);
        assert(c.len() >= f0.len()) by {
            lemma_join_prefix(mv_fields(v), ',');
        }
        assert(c[0] == f0[0]) by {
            lemma_join_prefix(mv_fields(v), ',');
        }
        lemma_not_blank(c, 0);
        assert forall|r: int| 0 <= r < MV_FIELDS implies field_of(names, c, r) == Some(#[trigger] mv_fields(v)[r]) by {
            assert(column_of(names, r) == Some(r));
        }
        assert(Seq::new(MV_FIELDS as nat, |r: int| field_of(names, c, r)) =~= read_back(v));
    }
    lemma_filter_map_all(contents, f, out);
}

proof fn lemma_join_prefix(xs: Seq<Seq<char>>, sep: char)
    requires
        xs.len() >= 1,
    ensures
        join(xs, sep).len() >= xs[0].len(),
        forall|i: int| 0 <= i < xs[0].len() ==> join(xs, sep)[i] == xs[0][i],
    decreases xs.len(),
{
    if xs.len() > 1 {
        lemma_join_prefix(xs.drop_last(), sep);
        let j = join(xs.drop_last(), sep);
        assert forall|i: int| 0 <= i < xs[0].len() implies join(xs, sep)[i] == xs[0][i] by {
            assert(join(xs, sep)[i] == j[i]);
            assert(xs.drop_last()[0] == xs[0]);
        }
    }
}

proof fn lemma_hex_value(n: nat)
    ensures
        all_digits(hex_text(n), 16),
        digits_value(hex_text(n), 16) == n,
    decreases n,
{
    lemma_hex_text_digits(n);
    if n >= 16 {
        lemma_hex_value(n / 16);
        let t = hex_text(n);
        assert(t.drop_last() =~= hex_text(n / 16));
        assert(t.last() == hex_digit((n % 16) as int));
        assert(digit_val(hex_digit((n % 16) as int)) == n % 16);
        assert(digits_value(t, 16) == digits_value(hex_text(n / 16), 16) * 16 + digit_val(t.last()));
        assert((n / 16) * 16 + n % 16 == n) by (nonlinear_arith);
    } else {
        let t = hex_text(n);
        assert(t.drop_last() =~= Seq::<char>::empty());
        assert(t.last() == hex_digit(n as int));
        assert(digits_value(t.drop_last(), 16) == 0);
        assert(digit_val(hex_digit(n as int)) == n);
        assert(digits_value(t, 16) == digits_value(t.drop_last(), 16) * 16 + digit_val(t.last()));
    }
    assert forall|i: int| 0 <= i < hex_text(n).len() implies digit_val(#[trigger] hex_text(n)[i]) < 16 by {}
}

/// The `flags` field as written (`0x` and lower-case hexadecimal digits)
/// reads back as the flags.
pub proof fn lemma_flags_round_trip(f: u64)
    ensures
        flags_value("0x"@ + hex_text(f as nat)) == Some(f),
{
    reveal_strlit("0x");
    lemma_hex_value(f as nat);
    lemma_hex_text_digits(f as nat);
    let h = hex_text(f as nat);
    let s = "0x"@ + h;
    assert(!is_ws(s[0]));
    assert(!is_ws(s.last())) by {
        assert(s.last() == h.last());
    }
    lemma_trim_plain(s);
    assert(has_prefix(s, "0x"@)) by {
        assert(s.subrange(0, 2) =~= "0x"@);
    }
    assert(s.subrange(2, s.len() as int) =~= h);
    assert(h[0] != '+');
}

/// Everything a writer has produced, flushed or not, reads back as the
/// fields of the vectors written, in write order.
pub proof fn lemma_writer_reads_back(w: &MotionVectorCsvWriter)
    requires
        w.wf(),
        forall|i: int| 0 <= i < w.written().len() ==> plain_row(#[trigger] w.written()[i]),
    ensures
        mv_csv_rows(w.flushed_text() + w.pending_text())
            == Ok::<Seq<Seq<Option<Seq<char>>>>, CsvError>(w.written().map_values(|v: MvCsvRow| read_back(v))),
{
    w.lemma_output_is_csv();
    lemma_csv_round_trip(w.written());
}

} // verus!
