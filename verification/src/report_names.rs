//! Names of result folders and report files: the `YYYYMMDD_HHMM` stamp a
//! run folder's name carries, report page titles, and the detail-table
//! images of a run.

use vstd::prelude::*;
use vstd::string::*;
use crate::text::{chars_of, string_from_chars};
use crate::scan::{sub_chars, i32_of, parse_i32};
use crate::paths::{file_name, file_name_of};
use crate::keyed::{labeled_views, with_key, key_ordered, is_stable_key_order, insert_keyed};

verus! {

broadcast use vstd::seq_lib::group_seq_lib_default;

/// The text of an optional string.
pub open spec fn text_of(o: Option<String>) -> Option<Seq<char>> {
    match o {
        Some(s) => Some(s@),
        None => None,
    }
}

pub open spec fn groups_view(v: Seq<Option<String>>) -> Seq<Option<Seq<char>>> {
    v.map_values(|g: Option<String>| text_of(g))
}

/// What a regular-expression search found: for each group of the pattern,
/// group 0 being the whole match, the text it matched if it took part.
pub open spec fn captures_view(c: Option<Vec<Option<String>>>) -> Option<Seq<Option<Seq<char>>>> {
    match c {
        Some(v) => Some(groups_view(v@)),
        None => None,
    }
}

/// The groups of the first match of `pattern` in `text` under the syntax
/// and search of the `regex` crate; `None` when nothing matches or the
/// pattern does not compile.
pub uninterp spec fn regex_captures_of(pattern: Seq<char>, text: Seq<char>) -> Option<Seq<Option<Seq<char>>>>;

/// Searches `text` for `pattern`.
///
/// Trusted: compiles the pattern with `regex::Regex::new` and searches with
/// `Regex::captures`, handing back the text of each group. Of the result
/// only this is claimed: it is the same for the same pattern and text.
#[verifier::external_body]
fn regex_captures(pattern: &str, text: &str) -> (res: Option<Vec<Option<String>>>)
    ensures
        captures_view(res) == regex_captures_of(pattern@, text@),
{
    let re = regex::Regex::new(pattern).ok()?;
    let caps = re.captures(text)?;
    Some(caps.iter().map(|m| m.map(|m| m.as_str().to_string())).collect())
}

/// Group `i` of a match, if the match has it and it took part.
pub open spec fn group(caps: Seq<Option<Seq<char>>>, i: int) -> Option<Seq<char>> {
    if 0 <= i < caps.len() {
        caps[i]
    } else {
        None
    }
}

fn group_text(caps: &Vec<Option<String>>, i: usize) -> (res: Option<String>)
    ensures
        text_of(res) == group(groups_view(caps@), i as int),
{
    if i < caps.len() {
        match &caps[i] {
            Some(s) => Some(s.clone()),
            None => None,
        }
    } else {
        None
    }
}

/// Bytes that `c` takes in UTF-8.
pub open spec fn utf8_width(c: char) -> int {
    if (c as int) < 0x80 {
        1
    } else if (c as int) < 0x800 {
        2
    } else if (c as int) < 0x10000 {
        3
    } else {
        4
    }
}

fn utf8_width_exec(c: char) -> (w: usize)
    ensures
        w == utf8_width(c),
{
    let u = c as u32;
    if u < 0x80 {
        1
    } else if u < 0x800 {
        2
    } else if u < 0x10000 {
        3
    } else {
        4
    }
}

/// How many leading characters of `s` take exactly `b` bytes in UTF-8: the
/// byte offset `b` as a character position, if it falls on a character
/// boundary of `s`.
pub open spec fn char_cut(s: Seq<char>, b: int) -> Option<int>
    decreases s.len(),
{
    if b == 0 {
        Some(0)
    } else if b < 0 || s.len() == 0 {
        None
    } else {
        match char_cut(s.drop_first(), b - utf8_width(s[0])) {
            Some(k) => Some(k + 1),
            None => None,
        }
    }
}

proof fn lemma_cut_order(s: Seq<char>, x: int, y: int)
    requires
        0 <= x <= y,
        char_cut(s, x) is Some,
        char_cut(s, y) is Some,
    ensures
        0 <= char_cut(s, x)->0 <= char_cut(s, y)->0 <= s.len(),
    decreases s.len(),
{
    if y > 0 {
        let w = utf8_width(s[0]);
        if x > 0 {
            lemma_cut_order(s.drop_first(), x - w, y - w);
        } else {
            lemma_cut_order(s.drop_first(), y - w, y - w);
        }
    }
}

fn char_cut_exec(s: &Vec<char>, b: usize) -> (res: Option<usize>)
    ensures
        match res {
            Some(k) => char_cut(s@, b as int) == Some(k as int),
            None => char_cut(s@, b as int) is None,
        },
{
    let mut i: usize = 0;
    let mut rem: usize = b;
    proof {
        assert(s@.skip(0) =~= s@);
    }
    while rem > 0 && i < s.len()
        invariant
            i <= s@.len(),
            char_cut(s@, b as int) == match char_cut(s@.skip(i as int), rem as int) {
                Some(k) => Some(k + i),
                None => None,
            },
        decreases s@.len() - i,
    {
        let w = utf8_width_exec(s[i]);
        proof {
            assert(s@.skip(i as int).drop_first() =~= s@.skip(i + 1));
            assert(s@.skip(i as int)[0] == s@[i as int]);
        }
        if w > rem {
            proof {
                assert(char_cut(s@.skip(i + 1), rem - w) is None);
            }
            return None;
        }
        rem = rem - w;
        i = i + 1;
    }
    if rem == 0 {
        Some(i)
    } else {
        None
    }
}

/// The title made of an eight-digit date and a four-digit time as the
/// stamp's groups: `Automated Report: YYYY-MM-DD HH:MM:00`, the parts cut at
/// byte offsets; `None` where an offset falls inside a character.
pub open spec fn stamp_title(d: Seq<char>, t: Seq<char>) -> Option<Seq<char>> {
    match (char_cut(d, 4), char_cut(d, 6), char_cut(t, 2), char_cut(t, 4)) {
        (Some(a), Some(b), Some(c), Some(e)) => Some(
            "Automated Report: "@ + d.take(a) + "-"@ + d.subrange(a, b) + "-"@ + d.skip(b) + " "@ + t.take(c)
                + ":"@ + t.subrange(c, e) + ":00"@,
        ),
        _ => None,
    }
}

/// The date and time groups of a stamp match.
pub open spec fn stamp_groups(caps: Option<Seq<Option<Seq<char>>>>) -> Option<(Seq<char>, Seq<char>)> {
    match caps {
        Some(g) => match (group(g, 1), group(g, 2)) {
            (Some(d), Some(t)) => Some((d, t)),
            _ => None,
        },
        None => None,
    }
}

/// The report title of a folder name, given the stamp search's result on
/// it: from the stamp's date and time when there is one, else
/// `Automated Report: <name>`.
pub open spec fn title_for(name: Seq<char>, caps: Option<Seq<Option<Seq<char>>>>) -> Option<Seq<char>> {
    match stamp_groups(caps) {
        Some((d, t)) => stamp_title(d, t),
        None => Some("Automated Report: "@ + name),
    }
}

/// A `YYYYMMDD_HHMM` stamp anywhere in a name.
pub open spec fn stamp_pattern() -> Seq<char> {
    "(\\d{8})_(\\d{4})"@
}

/// A `YYYYMMDD_HHMM` stamp at the start of a name.
pub open spec fn leading_stamp_pattern() -> Seq<char> {
    "^(\\d{8})_(\\d{4})"@
}

/// A detail-table image name.
pub open spec fn table_pattern() -> Seq<char> {
    "detail_table_(\\d+)streams\\.png"@
}

/// The last component of a directory path, empty when it has none.
pub open spec fn dir_name(directory: Seq<char>) -> Seq<char> {
    match file_name(directory) {
        Some(n) => n,
        None => Seq::<char>::empty(),
    }
}

fn push_chars(out: &mut String, s: &Vec<char>, a: usize, b: usize)
    requires
        a <= b <= s@.len(),
    ensures
        final(out)@ == old(out)@ + s@.subrange(a as int, b as int),
{
    out.append(string_from_chars(&sub_chars(s, a, b)).as_str());
}

/// The report title of a folder name, given what the stamp search found in
/// it (`None` where the title's date parts would be cut inside a
/// character). A match without both groups, which the stamp pattern does
/// not produce, counts as no stamp.
pub fn report_title_from(name: &str, caps: &Option<Vec<Option<String>>>) -> (res: Option<String>)
    ensures
        text_of(res) == title_for(name@, captures_view(*caps)),
{
    let (d, t) = match caps {
        Some(g) => match (group_text(g, 1), group_text(g, 2)) {
            (Some(d), Some(t)) => (d, t),
            _ => {
                let mut title = "Automated Report: ".to_owned();
                title.append(name);
                return Some(title);
            },
        },
        None => {
            let mut title = "Automated Report: ".to_owned();
            title.append(name);
            return Some(title);
        },
    };
    let dc = chars_of(d.as_str());
    let tc = chars_of(t.as_str());
    let (a, b, c, e) = match (char_cut_exec(&dc, 4), char_cut_exec(&dc, 6), char_cut_exec(&tc, 2), char_cut_exec(&tc, 4)) {
        (Some(a), Some(b), Some(c), Some(e)) => (a, b, c, e),
        _ => return None,
    };
    proof {
        lemma_cut_order(dc@, 4, 6);
        lemma_cut_order(tc@, 2, 4);
    }
    let mut title = "Automated Report: ".to_owned();
    push_chars(&mut title, &dc, 0, a);
    title.append("-");
    push_chars(&mut title, &dc, a, b);
    title.append("-");
    push_chars(&mut title, &dc, b, dc.len());
    title.append(" ");
    push_chars(&mut title, &tc, 0, c);
    title.append(":");
    push_chars(&mut title, &tc, c, e);
    title.append(":00");
    proof {
        assert(dc@.subrange(0, a as int) =~= dc@.take(a as int));
        assert(dc@.subrange(b as int, dc@.len() as int) =~= dc@.skip(b as int));
        assert(tc@.subrange(0, c as int) =~= tc@.take(c as int));
    }
    Some(title)
}

/// The title of the report page of a results directory, made from the first
/// `YYYYMMDD_HHMM` stamp in the directory's name as the `regex` crate finds
/// it (`\d` being any Unicode decimal digit), or `Automated Report: <name>`.
/// `None` where the stamp's date parts would be cut inside a character.
pub fn generate_report_title(directory: &str) -> (res: Option<String>)
    ensures
        text_of(res) == title_for(dir_name(directory@), regex_captures_of(stamp_pattern(), dir_name(directory@))),
{
    let name = match file_name_of(&chars_of(directory)) {
        Some(n) => string_from_chars(&n),
        None => String::new(),
    };
    let caps = regex_captures("(\\d{8})_(\\d{4})", name.as_str());
    report_title_from(name.as_str(), &caps)
}

/// The `<date> <time>` text of a stamp match, if there is one.
pub open spec fn folder_date_for(caps: Option<Seq<Option<Seq<char>>>>) -> Option<Seq<char>> {
    match stamp_groups(caps) {
        Some((d, t)) => Some(d + " "@ + t),
        None => None,
    }
}

/// The `<date> <time>` text of what the leading-stamp search found. A match
/// without both groups, which the pattern does not produce, counts as none.
pub fn folder_date_from(caps: &Option<Vec<Option<String>>>) -> (res: Option<String>)
    ensures
        text_of(res) == folder_date_for(captures_view(*caps)),
{
    match caps {
        Some(g) => match (group_text(g, 1), group_text(g, 2)) {
            (Some(d), Some(t)) => {
                let mut s = d;
                s.append(" ");
                s.append(t.as_str());
                Some(s)
            },
            _ => None,
        },
        None => None,
    }
}

/// The `YYYYMMDD HHMM` date and time a run folder's name starts with.
pub fn folder_date_text(name: &str) -> (res: Option<String>)
    ensures
        text_of(res) == folder_date_for(regex_captures_of(leading_stamp_pattern(), name@)),
{
    let caps = regex_captures("^(\\d{8})_(\\d{4})", name);
    folder_date_from(&caps)
}

/// The stream count and file name of a detail-table image, given what the
/// detail-table search found in its name: the count is the digits of the
/// first group read as an `i32`, 0 when they do not read as one. A match
/// without the group, which the pattern does not produce, is no image.
pub open spec fn table_entry_for(name: Seq<char>, caps: Option<Seq<Option<Seq<char>>>>) -> Option<(i64, Seq<char>)> {
    match caps {
        Some(g) => match group(g, 1) {
            Some(d) => Some(
                (
                    match i32_of(d) {
                        Some(v) => v as i64,
                        None => 0i64,
                    },
                    name,
                ),
            ),
            None => None,
        },
        None => None,
    }
}

/// A file name paired with what the detail-table search found in it.
pub open spec fn searched_view(p: (String, Option<Vec<Option<String>>>)) -> (Seq<char>, Option<Seq<Option<Seq<char>>>>) {
    (p.0@, captures_view(p.1))
}

pub open spec fn searched_views(v: Seq<(String, Option<Vec<Option<String>>>)>) -> Seq<(Seq<char>, Option<Seq<Option<Seq<char>>>>)> {
    v.map_values(|p: (String, Option<Vec<Option<String>>>)| searched_view(p))
}

pub open spec fn searched_entry() -> spec_fn((Seq<char>, Option<Seq<Option<Seq<char>>>>)) -> Option<(i64, Seq<char>)> {
    |p: (Seq<char>, Option<Seq<Option<Seq<char>>>>)| table_entry_for(p.0, p.1)
}

pub open spec fn names_view(v: Seq<String>) -> Seq<Seq<char>> {
    v.map_values(|s: String| s@)
}

/// Each name paired with the detail-table search's result on it.
pub open spec fn searched_names(names: Seq<Seq<char>>) -> Seq<(Seq<char>, Option<Seq<Option<Seq<char>>>>)> {
    names.map_values(|n: Seq<char>| (n, regex_captures_of(table_pattern(), n)))
}

/// The stream count and file name of a detail-table image, if `name` is one.
fn detail_table_of(name: &String, caps: &Option<Vec<Option<String>>>) -> (res: Option<(i64, String)>)
    ensures
        match res {
            Some(e) => table_entry_for(name@, captures_view(*caps)) == Some((e.0, e.1@)),
            None => table_entry_for(name@, captures_view(*caps)) is None,
        },
{
    let g = match caps {
        Some(g) => g,
        None => return None,
    };
    let d = match group_text(g, 1) {
        Some(d) => d,
        None => return None,
    };
    let v: i64 = match parse_i32(&chars_of(d.as_str())) {
        Some(v) => v as i64,
        None => 0,
    };
    Some((v, name.clone()))
}

/// The detail-table images among named files, given what the detail-table
/// search found in each name, ordered by stream count, names with equal
/// counts in their listed order.
pub fn detail_tables_from(searched: &Vec<(String, Option<Vec<Option<String>>>)>) -> (res: Vec<(i64, String)>)
    ensures
        is_stable_key_order(labeled_views(res@), searched_views(searched@).filter_map(searched_entry())),
{
    let ghost nv = searched_views(searched@);
    let mut out: Vec<(i64, String)> = Vec::new();
    let mut i: usize = 0;
    proof {
        assert forall|t: i64| #[trigger] labeled_views(out@).filter(with_key(t)) == nv.take(0).filter_map(searched_entry()).filter(with_key(t)) by {
            reveal(Seq::filter);
            assert(labeled_views(out@) =~= Seq::<(i64, Seq<char>)>::empty());
            assert(nv.take(0).filter_map(searched_entry()) =~= Seq::<(i64, Seq<char>)>::empty());
        }
    }
    while i < searched.len()
        invariant
            i <= searched@.len(),
            nv == searched_views(searched@),
            key_ordered(labeled_views(out@)),
            forall|t: i64| #[trigger] labeled_views(out@).filter(with_key(t)) == nv.take(i as int).filter_map(searched_entry()).filter(with_key(t)),
        decreases searched@.len() - i,
    {
        proof {
            nv.lemma_filter_map_take_succ(searched_entry(), i as int);
            assert(nv[i as int] == searched_view(searched@[i as int]));
        }
        match detail_table_of(&searched[i].0, &searched[i].1) {
            Some(e) => {
                let ghost x = (e.0, e.1@);
                insert_keyed(&mut out, e.0, e.1);
                proof {
                    assert forall|t: i64| #[trigger] labeled_views(out@).filter(with_key(t)) == nv.take(i + 1).filter_map(searched_entry()).filter(with_key(t)) by {
                        let base = nv.take(i as int).filter_map(searched_entry());
                        assert(nv.take(i + 1).filter_map(searched_entry()) =~= base.push(x));
                        base.lemma_filter_push(x, with_key(t));
                    }
                }
            },
            None => {
                proof {
                    assert(nv.take(i + 1).filter_map(searched_entry()) =~= nv.take(i as int).filter_map(searched_entry()));
                }
            },
        }
        i += 1;
    }
    proof {
        assert(nv.take(i as int) =~= nv);
    }
    out
}

/// The detail-table images among a run's plot file names: the names in
/// which the `regex` crate finds `detail_table_<digits>streams.png`, with
/// their stream counts, ordered by count, equal counts in listed order.
pub fn detail_tables(filenames: &Vec<String>) -> (res: Vec<(i64, String)>)
    ensures
        is_stable_key_order(labeled_views(res@), searched_names(names_view(filenames@)).filter_map(searched_entry())),
{
    let mut searched: Vec<(String, Option<Vec<Option<String>>>)> = Vec::new();
    let mut i: usize = 0;
    while i < filenames.len()
        invariant
            i <= filenames@.len(),
            searched_views(searched@) =~= searched_names(names_view(filenames@)).take(i as int),
        decreases filenames@.len() - i,
    {
        let name = filenames[i].clone();
        let caps = regex_captures("detail_table_(\\d+)streams\\.png", name.as_str());
        proof {
            assert(names_view(filenames@)[i as int] == name@);
            assert(captures_view(caps) == regex_captures_of(table_pattern(), name@));
        }
        let ghost before = searched@;
        let ghost entry = (name, caps);
        searched.push((name, caps));
        proof {
            assert(searched@ == before.push(entry));
            assert(searched_views(searched@) =~= searched_views(before).push(searched_view(entry)));
            assert(searched_names(names_view(filenames@)).take(i + 1) =~= searched_names(names_view(filenames@)).take(
                i as int,
            ).push(searched_names(names_view(filenames@))[i as int]));
            assert(searched_views(searched@) =~= searched_names(names_view(filenames@)).take(i + 1));
        }
        i += 1;
    }
    proof {
        assert(searched_names(names_view(filenames@)).take(i as int) =~= searched_names(names_view(filenames@)));
    }
    detail_tables_from(&searched)
}

/// A date and time to the minute, as plain values.
#[derive(Clone, Copy, Debug, PartialEq, Eq)]
pub struct StampTime {
    pub year: i32,
    pub month: u32,
    pub day: u32,
    pub hour: u32,
    pub minute: u32,
}

pub open spec fn is_ascii_digit(c: char) -> bool {
    '0' <= c <= '9'
}

/// The number the ASCII decimal digits `s` spell.
pub open spec fn digits_value(s: Seq<char>) -> int
    decreases s.len(),
{
    if s.len() == 0 {
        0
    } else {
        digits_value(s.drop_last()) * 10 + (s.last() as int - '0' as int)
    }
}

/// `t` is a stamp `YYYYMMDD HHMM` written in ASCII digits.
pub open spec fn ascii_stamp(t: Seq<char>) -> bool {
    &&& t.len() == 13
    &&& t[8] == ' '
    &&& forall|i: int| 0 <= i < 13 && i != 8 ==> is_ascii_digit(#[trigger] t[i])
}

/// The date and time an ASCII stamp `YYYYMMDD HHMM` spells.
pub open spec fn stamp_fields(t: Seq<char>) -> StampTime {
    StampTime {
        year: digits_value(t.subrange(0, 4)) as i32,
        month: digits_value(t.subrange(4, 6)) as u32,
        day: digits_value(t.subrange(6, 8)) as u32,
        hour: digits_value(t.subrange(9, 11)) as u32,
        minute: digits_value(t.subrange(11, 13)) as u32,
    }
}

/// Days from 1970-01-01 to the given day of the proleptic Gregorian
/// calendar (negative before it).
pub open spec fn days_from_civil(y: int, m: int, d: int) -> int {
    let yy = if m <= 2 { y - 1 } else { y };
    let era = yy / 400;
    let yoe = yy - era * 400;
    let mp = if m > 2 { m - 3 } else { m + 9 };
    let doy = (153 * mp + 2) / 5 + d - 1;
    let doe = yoe * 365 + yoe / 4 - yoe / 100 + doy;
    era * 146097 + doe - 719468
}

/// The Unix timestamp of the date and time read as UTC.
pub open spec fn utc_seconds(f: StampTime) -> int {
    days_from_civil(f.year as int, f.month as int, f.day as int) * 86400 + f.hour * 3600 + f.minute * 60
}

/// A leap year of the proleptic Gregorian calendar.
pub open spec fn is_leap_year(y: int) -> bool {
    (y % 4 == 0 && y % 100 != 0) || y % 400 == 0
}

pub open spec fn days_in_month(y: int, m: int) -> int {
    if m == 2 {
        if is_leap_year(y) { 29 } else { 28 }
    } else if m == 4 || m == 6 || m == 9 || m == 11 {
        30
    } else {
        31
    }
}

/// The fields name a real day and a time of day.
pub open spec fn valid_stamp_time(f: StampTime) -> bool {
    &&& 1 <= f.month <= 12
    &&& 1 <= f.day <= days_in_month(f.year as int, f.month as int)
    &&& f.hour < 24
    &&& f.minute < 60
}

/// Reads a stamp `YYYYMMDD HHMM` in ASCII digits as a date and time.
///
/// Trusted: calls `chrono::NaiveDateTime::parse_from_str` with the format
/// `%Y%m%d %H%M`, an error taken as `None`, and hands on the year, month,
/// day, hour and minute of the value. Claimed: chrono reads an unsigned
/// `%Y` as up to four digits and `%m`, `%d`, `%H`, `%M` as up to two, so
/// the fields are those the digits spell; it refuses the text exactly where
/// they name no real day (month 1 to 12, day within the month of that year)
/// or no time of day (hour below 24, minute below 60), seconds being 0.
#[verifier::external_body]
fn naive_datetime(text: &str, fmt: &str) -> (res: Option<StampTime>)
    requires
        fmt@ == "%Y%m%d %H%M"@,
        ascii_stamp(text@),
    ensures
        res is Some <==> valid_stamp_time(stamp_fields(text@)),
        res matches Some(f) ==> f == stamp_fields(text@),
{
    let n = chrono::NaiveDateTime::parse_from_str(text, fmt).ok()?;
    Some(StampTime {
        year: chrono::Datelike::year(&n),
        month: chrono::Datelike::month(&n),
        day: chrono::Datelike::day(&n),
        hour: chrono::Timelike::hour(&n),
        minute: chrono::Timelike::minute(&n),
    })
}

/// The Unix timestamp of a local date and time.
///
/// Trusted: builds the `chrono::NaiveDateTime` of the fields (seconds 0),
/// calls `chrono::TimeZone::from_local_datetime` on `chrono::Local` and
/// keeps the instant when the machine's time zone maps the local time to
/// exactly one. Claimed: that instant lies less than a day from the same
/// date and time read as UTC, since a chrono offset is less than a day
/// (`FixedOffset` refuses 86 400 seconds or more). Whether there is one,
/// and its offset, depend on the machine's time zone and are not stated.
#[verifier::external_body]
fn local_timestamp(f: &StampTime) -> (res: Option<i64>)
    ensures
        res matches Some(ts) ==> -86400 < ts - utc_seconds(*f) < 86400,
{
    let date = chrono::NaiveDate::from_ymd_opt(f.year, f.month, f.day)?;
    let n = date.and_hms_opt(f.hour, f.minute, 0)?;
    match chrono::TimeZone::from_local_datetime(&chrono::Local, &n) {
        chrono::LocalResult::Single(t) => Some(t.timestamp()),
        _ => None,
    }
}

/// Whether a text is a stamp `YYYYMMDD HHMM` in ASCII digits.
fn is_ascii_stamp(t: &str) -> (res: bool)
    ensures
        res == ascii_stamp(t@),
{
    let c = chars_of(t);
    if c.len() != 13 || c[8] != ' ' {
        return false;
    }
    let mut i: usize = 0;
    while i < 13
        invariant
            c@ == t@,
            c@.len() == 13,
            i <= 13,
            forall|j: int| 0 <= j < i && j != 8 ==> is_ascii_digit(#[trigger] c@[j]),
        decreases 13 - i,
    {
        if i != 8 && !('0' <= c[i] && c[i] <= '9') {
            return false;
        }
        i += 1;
    }
    true
}

/// The date and time a run folder's name starts with: its leading
/// `YYYYMMDD_HHMM` stamp read as a day and time of day, when the stamp is in
/// ASCII digits and names a real one.
pub open spec fn folder_stamp_for(name: Seq<char>) -> Option<StampTime> {
    match folder_date_for(regex_captures_of(leading_stamp_pattern(), name)) {
        Some(t) => if ascii_stamp(t) && valid_stamp_time(stamp_fields(t)) {
            Some(stamp_fields(t))
        } else {
            None
        },
        None => None,
    }
}

/// The date and time a run folder's name starts with (`YYYYMMDD_HHMM`,
/// read as `%Y%m%d %H%M`): none for a name without that stamp, or whose
/// stamp is not in ASCII digits (chrono reads no others) or names no real
/// date and time of day.
pub fn folder_stamp_time(name: &str) -> (res: Option<StampTime>)
    ensures
        res == folder_stamp_for(name@),
{
    let text = match folder_date_text(name) {
        Some(t) => t,
        None => return None,
    };
    if !is_ascii_stamp(text.as_str()) {
        return None;
    }
    naive_datetime(text.as_str(), "%Y%m%d %H%M")
}

/// The Unix timestamp of the local date and time a run folder's name starts
/// with: the date and time of `folder_stamp_time`, converted in the
/// machine's time zone. A name without one has none. The conversion may
/// give none too (a local time that the clock skips or passes twice); a
/// timestamp it gives lies less than a day from the stamp read as UTC.
pub fn parse_folder_timestamp(name: &str) -> (res: Option<i64>)
    ensures
        folder_stamp_for(name@) is None ==> res is None,
        res matches Some(ts) ==> (folder_stamp_for(name@) matches Some(f) && -86400 < ts - utc_seconds(f) < 86400),
{
    match folder_stamp_time(name) {
        Some(f) => local_timestamp(&f),
        None => None,
    }
}

} // verus!
