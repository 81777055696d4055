//! Reading a full motion-vector CSV back.
//!
//! The header line decides which column feeds which field; every non-blank
//! data line then yields the raw text of each field it has. Turning the
//! numeric fields into numbers is left to the caller.

use vstd::prelude::*;
use crate::text::{chars_of, string_from_chars};
use crate::scan::{TrimSet, trim, trim_chars, lines, pieces, views, split_lines, split_by, chars_equal, trimmed_pieces, split_trimmed};

verus! {

/// Number of fields of a full motion vector.
pub const MV_FIELDS: usize = 12;

/// Field positions of the columns the loader needs.
pub const FRAME_FIELD: usize = 0;
pub const SRC_X_FIELD: usize = 4;
pub const SRC_Y_FIELD: usize = 5;
pub const DST_X_FIELD: usize = 6;
pub const DST_Y_FIELD: usize = 7;
pub const FLAGS_FIELD: usize = 8;

/// The header name of each field of a full motion vector, in field order.
pub open spec fn mv_column(r: int) -> Seq<char> {
    if r == 0 {
        "frame"@
    } else if r == 1 {
        "source"@
    } else if r == 2 {
        "w"@
    } else if r == 3 {
        "h"@
    } else if r == 4 {
        "src_x"@
    } else if r == 5 {
        "src_y"@
    } else if r == 6 {
        "dst_x"@
    } else if r == 7 {
        "dst_y"@
    } else if r == 8 {
        "flags"@
    } else if r == 9 {
        "motion_x"@
    } else if r == 10 {
        "motion_y"@
    } else {
        "motion_scale"@
    }
}

/// Why a CSV cannot be read.
#[derive(Debug, Clone, Copy, PartialEq, Eq, Structural)]
pub enum CsvError {
    /// The text has no line at all.
    Empty,
    /// The header has no `frame` column.
    MissingFrame,
    /// The header has no `src_x` column.
    MissingSrcX,
    /// The header has no `src_y` column.
    MissingSrcY,
    /// The header has no `dst_x` column (the video tools need one).
    MissingDstX,
    /// The header has no `dst_y` column (the video tools need one).
    MissingDstY,
}

impl CsvError {
    /// The message reported for this error.
    pub fn message(&self) -> (res: &'static str)
        ensures
            res@ == match *self {
                CsvError::Empty => "Empty CSV file"@,
                CsvError::MissingFrame => "Missing 'frame' column"@,
                CsvError::MissingSrcX => "Missing 'src_x' column"@,
                CsvError::MissingSrcY => "Missing 'src_y' column"@,
                CsvError::MissingDstX => "Missing 'dst_x' column"@,
                CsvError::MissingDstY => "Missing 'dst_y' column"@,
            },
    {
        match self {
            CsvError::Empty => "Empty CSV file",
            CsvError::MissingFrame => "Missing 'frame' column",
            CsvError::MissingSrcX => "Missing 'src_x' column",
            CsvError::MissingSrcY => "Missing 'src_y' column",
            CsvError::MissingDstX => "Missing 'dst_x' column",
            CsvError::MissingDstY => "Missing 'dst_y' column",
        }
    }
}

/// The column names of a header line, each with surrounding whitespace removed.
pub open spec fn header_names(line: Seq<char>) -> Seq<Seq<char>> {
    trimmed_pieces(line, ',')
}

/// The column that feeds field `r`: the first one with its name.
pub open spec fn column_of(names: Seq<Seq<char>>, r: int) -> Option<int> {
    names.index_of_first(mv_column(r))
}

/// The raw text of field `r` on a data line; `None` where the header has no
/// such column or the line is too short to reach it.
pub open spec fn field_of(names: Seq<Seq<char>>, line: Seq<char>, r: int) -> Option<Seq<char>> {
    match column_of(names, r) {
        Some(p) => if p < pieces(line, ',').len() {
            Some(pieces(line, ',')[p])
        } else {
            None
        },
        None => None,
    }
}

/// Whether a line holds only whitespace.
pub open spec fn is_blank(l: Seq<char>) -> bool {
    trim(l, TrimSet::Whitespace).len() == 0
}

/// The fields of a data line, or nothing for a blank line.
pub open spec fn line_fields(names: Seq<Seq<char>>) -> spec_fn(Seq<char>) -> Option<Seq<Option<Seq<char>>>> {
    |l: Seq<char>| if is_blank(l) {
        None
    } else {
        Some(Seq::new(MV_FIELDS as nat, |r: int| field_of(names, l, r)))
    }
}

/// What reading a motion-vector CSV gives: the fields of every non-blank line
/// after the header, or the first error in the order empty text, missing
/// `frame`, missing `src_x`, missing `src_y`.
pub open spec fn mv_csv_rows(content: Seq<char>) -> Result<Seq<Seq<Option<Seq<char>>>>, CsvError> {
    let ls = lines(content);
    if ls.len() == 0 {
        Err(CsvError::Empty)
    } else {
        let names = header_names(ls[0]);
        if column_of(names, FRAME_FIELD as int) is None {
            Err(CsvError::MissingFrame)
        } else if column_of(names, SRC_X_FIELD as int) is None {
            Err(CsvError::MissingSrcX)
        } else if column_of(names, SRC_Y_FIELD as int) is None {
            Err(CsvError::MissingSrcY)
        } else {
            Ok(ls.drop_first().filter_map(line_fields(names)))
        }
    }
}

pub open spec fn field_view(f: Option<String>) -> Option<Seq<char>> {
    match f {
        Some(s) => Some(s@),
        None => None,
    }
}

pub open spec fn row_view(row: Vec<Option<String>>) -> Seq<Option<Seq<char>>> {
    row@.map_values(|f: Option<String>| field_view(f))
}

pub open spec fn rows_view(rows: Seq<Vec<Option<String>>>) -> Seq<Seq<Option<Seq<char>>>> {
    rows.map_values(|row: Vec<Option<String>>| row_view(row))
}

fn column_name(r: usize) -> (res: &'static str)
    requires
        r < MV_FIELDS,
    ensures
        res@ == mv_column(r as int),
{
    if r == 0 {
        "frame"
    } else if r == 1 {
        "source"
    } else if r == 2 {
        "w"
    } else if r == 3 {
        "h"
    } else if r == 4 {
        "src_x"
    } else if r == 5 {
        "src_y"
    } else if r == 6 {
        "dst_x"
    } else if r == 7 {
        "dst_y"
    } else if r == 8 {
        "flags"
    } else if r == 9 {
        "motion_x"
    } else if r == 10 {
        "motion_y"
    } else {
        "motion_scale"
    }
}

/// Position of the first entry of `names` equal to `name`.
fn find_column(names: &Vec<Vec<char>>, name: &Vec<char>) -> (res: Option<usize>)
    ensures
        match res {
            Some(p) => views(names@).index_of_first(name@) == Some(p as int),
            None => views(names@).index_of_first(name@) is None,
        },
{
    let ghost nv = views(names@);
    let mut i: usize = 0;
    while i < names.len()
        invariant
            i <= names@.len(),
            nv == views(names@),
            forall|j: int| 0 <= j < i ==> nv[j] != name@,
        decreases names@.len() - i,
    {
        if chars_equal(&names[i], name) {
            proof {
                assert(nv[i as int] == name@);
                nv.index_of_first_ensures(name@);
                assert(nv.contains(name@));
            }
            return Some(i);
        }
        i += 1;
    }
    proof {
        nv.index_of_first_ensures(name@);
        if nv.contains(name@) {
            let k = choose|k: int| 0 <= k < nv.len() && nv[k] == name@;
            assert(nv[k] != name@);
        }
    }
    None
}

/// The column of every field, in field order.
fn field_columns(names: &Vec<Vec<char>>) -> (res: Vec<Option<usize>>)
    ensures
        res@.len() == MV_FIELDS,
        forall|r: int| 0 <= r < MV_FIELDS ==> match #[trigger] res@[r] {
            Some(p) => column_of(views(names@), r) == Some(p as int),
            None => column_of(views(names@), r) is None,
        },
{
    let mut out: Vec<Option<usize>> = Vec::new();
    let mut r: usize = 0;
    while r < MV_FIELDS
        invariant
            r <= MV_FIELDS,
            out@.len() == r,
            forall|q: int| 0 <= q < r ==> match #[trigger] out@[q] {
                Some(p) => column_of(views(names@), q) == Some(p as int),
                None => column_of(views(names@), q) is None,
            },
        decreases MV_FIELDS - r,
    {
        let name = chars_of(column_name(r));
        let c = find_column(names, &name);
        out.push(c);
        r += 1;
    }
    out
}

/// The fields of one non-blank data line.
fn line_row(cols: &Vec<Option<usize>>, line: &Vec<char>, Ghost(names): Ghost<Seq<Seq<char>>>) -> (res: Vec<Option<String>>)
    requires
        cols@.len() == MV_FIELDS,
        forall|r: int| 0 <= r < MV_FIELDS ==> match #[trigger] cols@[r] {
            Some(p) => column_of(names, r) == Some(p as int),
            None => column_of(names, r) is None,
        },
    ensures
        row_view(res) == Seq::new(MV_FIELDS as nat, |r: int| field_of(names, line@, r)),
{
    let fs = split_by(line, ',');
    let ghost fv = views(fs@);
    let mut out: Vec<Option<String>> = Vec::new();
    let mut r: usize = 0;
    while r < MV_FIELDS
        invariant
            r <= MV_FIELDS,
            cols@.len() == MV_FIELDS,
            forall|q: int| 0 <= q < MV_FIELDS ==> match #[trigger] cols@[q] {
                Some(p) => column_of(names, q) == Some(p as int),
                None => column_of(names, q) is None,
            },
            fv == views(fs@),
            fv == pieces(line@, ','),
            out@.len() == r,
            forall|q: int| 0 <= q < r ==> field_view(#[trigger] out@[q]) == field_of(names, line@, q),
        decreases MV_FIELDS - r,
    {
        let f = match cols[r] {
            Some(p) => if p < fs.len() {
                Some(string_from_chars(&fs[p]))
            } else {
                None
            },
            None => None,
        };
        proof {
            match cols@[r as int] {
                Some(p) => {
                    if p < fs@.len() {
                        assert(fv[p as int] == fs@[p as int]@);
                    }
                },
                None => {},
            }
        }
        out.push(f);
        r += 1;
    }
    proof {
        assert(row_view(out) =~= Seq::new(MV_FIELDS as nat, |r: int| field_of(names, line@, r)));
    }
    out
}

/// Reads the text of a full motion-vector CSV: the raw text of every field of
/// every non-blank line after the header, indexed by field (see
/// `mv_column`). A field is `None` where the header lacks its column or the
/// line is too short to reach it.
pub fn read_mv_csv(content: &str) -> (res: Result<Vec<Vec<Option<String>>>, CsvError>)
    ensures
        match res {
            Ok(rows) => mv_csv_rows(content@) == Ok::<Seq<Seq<Option<Seq<char>>>>, CsvError>(rows_view(rows@)),
            Err(e) => mv_csv_rows(content@) == Err::<Seq<Seq<Option<Seq<char>>>>, CsvError>(e),
        },
{
    let ls = split_lines(&chars_of(content));
    let ghost lv = views(ls@);
    if ls.len() == 0 {
        return Err(CsvError::Empty);
    }
    let names = split_trimmed(&ls[0], ',');
    let ghost nv = views(names@);
    proof {
        assert(lv[0] == ls@[0]@);
    }
    let cols = field_columns(&names);
    if cols[FRAME_FIELD].is_none() {
        return Err(CsvError::MissingFrame);
    }
    if cols[SRC_X_FIELD].is_none() {
        return Err(CsvError::MissingSrcX);
    }
    if cols[SRC_Y_FIELD].is_none() {
        return Err(CsvError::MissingSrcY);
    }
    let ghost data = lv.drop_first();
    let mut out: Vec<Vec<Option<String>>> = Vec::new();
    let mut i: usize = 1;
    proof {
        assert(data.take(0) =~= Seq::<Seq<char>>::empty());
        assert(rows_view(out@) =~= data.take(0).filter_map(line_fields(nv)));
    }
    while i < ls.len()
        invariant
            1 <= i <= ls@.len(),
            lv == views(ls@),
            data == lv.drop_first(),
            nv == views(names@),
            cols@.len() == MV_FIELDS,
            forall|r: int| 0 <= r < MV_FIELDS ==> match #[trigger] cols@[r] {
                Some(p) => column_of(nv, r) == Some(p as int),
                None => column_of(nv, r) is None,
            },
            rows_view(out@) == data.take(i - 1).filter_map(line_fields(nv)),
        decreases ls@.len() - i,
    {
        proof {
            data.lemma_filter_map_take_succ(line_fields(nv), i - 1);
            assert(data[i - 1] == ls@[i as int]@);
        }
        let ghost before = out@;
        let t = trim_chars(&ls[i], &TrimSet::Whitespace);
        if t.len() > 0 {
            let row = line_row(&cols, &ls[i], Ghost(nv));
            out.push(row);
            proof {
                assert(rows_view(out@) =~= rows_view(before).push(row_view(row)));
            }
        }
        proof {
            assert(rows_view(out@) =~= data.take(i as int).filter_map(line_fields(nv)));
        }
        i += 1;
    }
    proof {
        assert(data.take(i - 1) =~= data);
    }
    Ok(out)
}

/// What the video tools read of a motion-vector CSV: as `mv_csv_rows`,
/// and then an error where the header lacks a `dst_x` or, after that, a
/// `dst_y` column.
pub open spec fn endpoint_csv_rows(content: Seq<char>) -> Result<Seq<Seq<Option<Seq<char>>>>, CsvError> {
    match mv_csv_rows(content) {
        Err(e) => Err(e),
        Ok(rows) => {
            let names = header_names(lines(content)[0]);
            if column_of(names, DST_X_FIELD as int) is None {
                Err(CsvError::MissingDstX)
            } else if column_of(names, DST_Y_FIELD as int) is None {
                Err(CsvError::MissingDstY)
            } else {
                Ok(rows)
            }
        },
    }
}

/// Reads a motion-vector CSV for the video tools, which also need the
/// destination columns: the fields of every non-blank data line, as
/// `read_mv_csv` gives them, or the first error.
pub fn read_endpoint_csv(content: &str) -> (res: Result<Vec<Vec<Option<String>>>, CsvError>)
    ensures
        match res {
            Ok(rows) => endpoint_csv_rows(content@) == Ok::<Seq<Seq<Option<Seq<char>>>>, CsvError>(rows_view(rows@)),
            Err(e) => endpoint_csv_rows(content@) == Err::<Seq<Seq<Option<Seq<char>>>>, CsvError>(e),
        },
{
    let rows = match read_mv_csv(content) {
        Ok(rows) => rows,
        Err(e) => return Err(e),
    };
    let ls = split_lines(&chars_of(content));
    let ghost lv = views(ls@);
    assert(lv.len() > 0);
    let names = split_trimmed(&ls[0], ',');
    proof {
        assert(lv[0] == ls@[0]@);
    }
    let cols = field_columns(&names);
    if cols[DST_X_FIELD].is_none() {
        return Err(CsvError::MissingDstX);
    }
    if cols[DST_Y_FIELD].is_none() {
        return Err(CsvError::MissingDstY);
    }
    Ok(rows)
}

} // verus!
