//! Scanning of text: Unicode whitespace trimming, line splitting and the
//! integer syntax of Rust's `FromStr`/`from_str_radix`.

use vstd::prelude::*;

verus! {

broadcast use vstd::seq_lib::group_seq_lib_default;

/// Value of `c` as a digit of base up to 36 (`0-9`, `a-z`, `A-Z`), or 99 if
/// it is not a digit in any base.
pub open spec fn digit_val(c: char) -> int {
    let x = c as int;
    if 48 <= x <= 57 {
        x - 48
    } else if 97 <= x <= 122 {
        x - 87
    } else if 65 <= x <= 90 {
        x - 55
    } else {
        99
    }
}

/// `s` is a non-empty run of digits of base `radix`.
pub open spec fn all_digits(s: Seq<char>, radix: int) -> bool {
    s.len() > 0 && forall|i: int| 0 <= i < s.len() ==> digit_val(#[trigger] s[i]) < radix
}

/// The number written by the digits `s` in base `radix`.
pub open spec fn digits_value(s: Seq<char>, radix: int) -> int
    decreases s.len(),
{
    if s.len() == 0 {
        0
    } else {
        digits_value(s.drop_last(), radix) * radix + digit_val(s.last())
    }
}

/// The value of `s` as an unsigned integer literal: an optional `+` followed
/// by at least one digit of base `radix`.
pub open spec fn unsigned_value(s: Seq<char>, radix: int) -> Option<int> {
    let body = if s.len() > 0 && s[0] == '+' { s.drop_first() } else { s };
    if all_digits(body, radix) {
        Some(digits_value(body, radix))
    } else {
        None
    }
}

/// The value of `s` as a signed decimal literal: an optional `+` or `-`
/// followed by at least one decimal digit.
pub open spec fn signed_value(s: Seq<char>) -> Option<int> {
    if s.len() > 0 && s[0] == '-' {
        if all_digits(s.drop_first(), 10) {
            Some(-digits_value(s.drop_first(), 10))
        } else {
            None
        }
    } else {
        unsigned_value(s, 10)
    }
}

/// What `u64::from_str_radix(s, radix)` returns, `Err` taken as `None`.
pub open spec fn u64_of(s: Seq<char>, radix: int) -> Option<u64> {
    match unsigned_value(s, radix) {
        Some(v) => if v <= u64::MAX { Some(v as u64) } else { None },
        None => None,
    }
}

/// What `s.parse::<i64>()` returns, `Err` taken as `None`.
pub open spec fn i64_of(s: Seq<char>) -> Option<i64> {
    match signed_value(s) {
        Some(v) => if i64::MIN <= v <= i64::MAX { Some(v as i64) } else { None },
        None => None,
    }
}

/// What `s.parse::<i32>()` returns, `Err` taken as `None`.
pub open spec fn i32_of(s: Seq<char>) -> Option<i32> {
    match signed_value(s) {
        Some(v) => if i32::MIN <= v <= i32::MAX { Some(v as i32) } else { None },
        None => None,
    }
}

pub open spec fn sat_cap() -> int {
    0x1_0000_0000_0000_0000
}

pub open spec fn min_int(a: int, b: int) -> int {
    if a <= b { a } else { b }
}

proof fn lemma_digits_value_nonneg(s: Seq<char>, radix: int)
    requires
        radix >= 1,
        forall|i: int| 0 <= i < s.len() ==> digit_val(#[trigger] s[i]) < radix,
    ensures
        digits_value(s, radix) >= 0,
    decreases s.len(),
{
    if s.len() > 0 {
        lemma_digits_value_nonneg(s.drop_last(), radix);
        assert(digits_value(s.drop_last(), radix) * radix >= 0) by (nonlinear_arith)
            requires digits_value(s.drop_last(), radix) >= 0, radix >= 1;
    }
}

fn digit_of(c: char) -> (d: u32)
    ensures
        d as int == digit_val(c),
{
    let x = c as u32;
    if 48 <= x && x <= 57 {
        x - 48
    } else if 97 <= x && x <= 122 {
        x - 87
    } else if 65 <= x && x <= 90 {
        x - 55
    } else {
        99
    }
}

/// Scans `s[start..]` as digits of base `radix` (10 or 16). Returns whether
/// it is a non-empty digit run and, if so, its value capped at 2^64.
fn scan_digits(s: &Vec<char>, start: usize, radix: u32) -> (res: (bool, u128))
    requires
        start <= s@.len(),
        radix == 10 || radix == 16,
    ensures
        res.0 == all_digits(s@.subrange(start as int, s@.len() as int), radix as int),
        res.0 ==> res.1 as int == min_int(digits_value(s@.subrange(start as int, s@.len() as int), radix as int), sat_cap()),
{
    if start >= s.len() {
        return (false, 0);
    }
    let mut acc: u128 = 0;
    let mut i = start;
    let ghost r = radix as int;
    while i < s.len()
        invariant
            start <= i <= s@.len(),
            radix == 10 || radix == 16,
            r == radix as int,
            forall|j: int| start <= j < i ==> digit_val(#[trigger] s@[j]) < r,
            acc as int == min_int(digits_value(s@.subrange(start as int, i as int), r), sat_cap()),
        decreases s@.len() - i,
    {
        let d = digit_of(s[i]);
        if d >= radix {
            proof {
                assert(s@.subrange(start as int, s@.len() as int)[i - start] == s@[i as int]);
            }
            return (false, 0);
        }
        proof {
            let p = s@.subrange(start as int, i as int);
            let q = s@.subrange(start as int, i + 1);
            assert(q.drop_last() =~= p);
            assert(q.last() == s@[i as int]);
            assert forall|t: int| 0 <= t < p.len() implies digit_val(#[trigger] p[t]) < r by {
                assert(p[t] == s@[start + t]);
            }
            lemma_digits_value_nonneg(p, r);
            let v = digits_value(p, r);
            if r == 10 {
                assert(digits_value(q, r) == v * 10 + d);
            } else {
                assert(digits_value(q, r) == v * 16 + d);
            }
        }
        let next: u128 = if radix == 10 { acc * 10 + d as u128 } else { acc * 16 + d as u128 };
        acc = if next > 0x1_0000_0000_0000_0000u128 { 0x1_0000_0000_0000_0000u128 } else { next };
        i += 1;
    }
    proof {
        let w = s@.subrange(start as int, s@.len() as int);
        assert forall|t: int| 0 <= t < w.len() implies digit_val(#[trigger] w[t]) < r by {
            assert(w[t] == s@[start + t]);
        }
    }
    (true, acc)
}

/// `u64::from_str_radix(s, radix)` for radix 10 or 16, `Err` as `None`.
pub fn parse_u64_radix(s: &Vec<char>, radix: u32) -> (res: Option<u64>)
    requires
        radix == 10 || radix == 16,
    ensures
        res == u64_of(s@, radix as int),
{
    let start: usize = if s.len() > 0 && s[0] == '+' { 1 } else { 0 };
    let (ok, v) = scan_digits(s, start, radix);
    proof {
        let body = if s@.len() > 0 && s@[0] == '+' { s@.drop_first() } else { s@ };
        assert(body =~= s@.subrange(start as int, s@.len() as int));
    }
    if ok && v <= 0xffff_ffff_ffff_ffffu128 {
        Some(v as u64)
    } else {
        None
    }
}

/// `s.parse::<i64>()`, `Err` as `None`.
pub fn parse_i64(s: &Vec<char>) -> (res: Option<i64>)
    ensures
        res == i64_of(s@),
{
    if s.len() > 0 && s[0] == '-' {
        let (ok, v) = scan_digits(s, 1, 10);
        proof {
            assert(s@.drop_first() =~= s@.subrange(1, s@.len() as int));
        }
        if ok && v <= 0x8000_0000_0000_0000u128 {
            if v == 0x8000_0000_0000_0000u128 {
                Some(i64::MIN)
            } else {
                Some(-(v as i64))
            }
        } else {
            None
        }
    } else {
        let start: usize = if s.len() > 0 && s[0] == '+' { 1 } else { 0 };
        let (ok, v) = scan_digits(s, start, 10);
        proof {
            let body = if s@.len() > 0 && s@[0] == '+' { s@.drop_first() } else { s@ };
            assert(body =~= s@.subrange(start as int, s@.len() as int));
        }
        if ok && v <= 0x7fff_ffff_ffff_ffffu128 {
            Some(v as i64)
        } else {
            None
        }
    }
}

/// `s.parse::<i32>()`, `Err` as `None`.
pub fn parse_i32(s: &Vec<char>) -> (res: Option<i32>)
    ensures
        res == i32_of(s@),
{
    match parse_i64(s) {
        Some(v) => if -2147483648 <= v && v <= 2147483647 { Some(v as i32) } else { None },
        None => None,
    }
}


// ---------------------------------------------------------------------------
// Trimming.

/// `char::is_whitespace`: the Unicode `White_Space` property.
pub open spec fn is_ws(c: char) -> bool {
    let x = c as int;
    ||| 9 <= x <= 13
    ||| x == 32
    ||| x == 0x85
    ||| x == 0xA0
    ||| x == 0x1680
    ||| 0x2000 <= x <= 0x200A
    ||| x == 0x2028
    ||| x == 0x2029
    ||| x == 0x202F
    ||| x == 0x205F
    ||| x == 0x3000
}

/// The characters a trim removes: whitespace, or one given character.
pub enum TrimSet {
    Whitespace,
    Char(char),
}

pub open spec fn trims(t: TrimSet, c: char) -> bool {
    match t {
        TrimSet::Whitespace => is_ws(c),
        TrimSet::Char(x) => c == x,
    }
}

fn trims_exec(t: &TrimSet, c: char) -> (res: bool)
    ensures
        res == trims(*t, c),
{
    match t {
        TrimSet::Whitespace => {
            let x = c as u32;
            (9 <= x && x <= 13) || x == 32 || x == 0x85 || x == 0xA0 || x == 0x1680 || (0x2000 <= x
                && x <= 0x200A) || x == 0x2028 || x == 0x2029 || x == 0x202F || x == 0x205F || x
                == 0x3000
        },
        TrimSet::Char(y) => c == *y,
    }
}

/// `s` without its leading characters of the set.
pub open spec fn trim_start(s: Seq<char>, t: TrimSet) -> Seq<char>
    decreases s.len(),
{
    if s.len() > 0 && trims(t, s[0]) {
        trim_start(s.drop_first(), t)
    } else {
        s
    }
}

/// `s` without its trailing characters of the set.
pub open spec fn trim_end(s: Seq<char>, t: TrimSet) -> Seq<char>
    decreases s.len(),
{
    if s.len() > 0 && trims(t, s.last()) {
        trim_end(s.drop_last(), t)
    } else {
        s
    }
}

/// `str::trim` (whitespace) or `str::trim_matches(c)` (one character).
pub open spec fn trim(s: Seq<char>, t: TrimSet) -> Seq<char> {
    trim_end(trim_start(s, t), t)
}

/// A copy of `v[a..b]`.
pub fn sub_chars(v: &Vec<char>, a: usize, b: usize) -> (res: Vec<char>)
    requires
        a <= b <= v@.len(),
    ensures
        res@ == v@.subrange(a as int, b as int),
{
    let mut out: Vec<char> = Vec::new();
    let mut i = a;
    while i < b
        invariant
            a <= i <= b <= v@.len(),
            out@ == v@.subrange(a as int, i as int),
        decreases b - i,
    {
        out.push(v[i]);
        proof {
            assert(out@ =~= v@.subrange(a as int, i + 1));
        }
        i += 1;
    }
    out
}

/// Removes the leading and trailing characters of the set.
pub fn trim_chars(s: &Vec<char>, t: &TrimSet) -> (res: Vec<char>)
    ensures
        res@ == trim(s@, *t),
{
    let n = s.len();
    let mut a: usize = 0;
    proof {
        assert(s@.subrange(0, n as int) =~= s@);
    }
    while a < n && trims_exec(t, s[a])
        invariant
            a <= n == s@.len(),
            trim_start(s@, *t) == trim_start(s@.subrange(a as int, n as int), *t),
        decreases n - a,
    {
        proof {
            assert(s@.subrange(a as int, n as int).drop_first() =~= s@.subrange(a + 1, n as int));
        }
        a += 1;
    }
    let mut b: usize = n;
    proof {
        assert(trim_start(s@.subrange(a as int, n as int), *t) == s@.subrange(a as int, n as int));
    }
    while b > a && trims_exec(t, s[b - 1])
        invariant
            a <= b <= n == s@.len(),
            trim(s@, *t) == trim_end(s@.subrange(a as int, b as int), *t),
        decreases b - a,
    {
        proof {
            assert(s@.subrange(a as int, b as int).drop_last() =~= s@.subrange(a as int, b - 1));
        }
        b -= 1;
    }
    sub_chars(s, a, b)
}

/// `p` is a prefix of `s`.
pub open spec fn has_prefix(s: Seq<char>, p: Seq<char>) -> bool {
    p.len() <= s.len() && s.subrange(0, p.len() as int) == p
}

/// `p` is a suffix of `s`.
pub open spec fn has_suffix(s: Seq<char>, p: Seq<char>) -> bool {
    p.len() <= s.len() && s.subrange(s.len() - p.len(), s.len() as int) == p
}

pub fn starts_with(s: &Vec<char>, p: &Vec<char>) -> (res: bool)
    ensures
        res == has_prefix(s@, p@),
{
    if p.len() > s.len() {
        return false;
    }
    let mut i: usize = 0;
    while i < p.len()
        invariant
            i <= p@.len() <= s@.len(),
            forall|j: int| 0 <= j < i ==> s@[j] == p@[j],
        decreases p@.len() - i,
    {
        if s[i] != p[i] {
            proof {
                assert(s@.subrange(0, p@.len() as int)[i as int] != p@[i as int]);
            }
            return false;
        }
        i += 1;
    }
    proof {
        assert(s@.subrange(0, p@.len() as int) =~= p@);
    }
    true
}

pub fn ends_with(s: &Vec<char>, p: &Vec<char>) -> (res: bool)
    ensures
        res == has_suffix(s@, p@),
{
    if p.len() > s.len() {
        return false;
    }
    let off = s.len() - p.len();
    let mut i: usize = 0;
    while i < p.len()
        invariant
            i <= p@.len() <= s@.len(),
            off == s@.len() - p@.len(),
            s@.len() <= usize::MAX,
            forall|j: int| 0 <= j < i ==> s@[off + j] == p@[j],
        decreases p@.len() - i,
    {
        if s[off + i] != p[i] {
            proof {
                assert(s@.subrange(off as int, s@.len() as int)[i as int] != p@[i as int]);
            }
            return false;
        }
        i += 1;
    }
    proof {
        assert(s@.subrange(off as int, s@.len() as int) =~= p@);
    }
    true
}

/// `p` occurs in `s` starting at position `i`.
pub open spec fn occurs_at(s: Seq<char>, p: Seq<char>, i: int) -> bool {
    0 <= i && i + p.len() <= s.len() && s.subrange(i, i + p.len()) == p
}

/// `p` occurs somewhere in `s` (`str::contains`).
pub open spec fn contains_text(s: Seq<char>, p: Seq<char>) -> bool {
    exists|i: int| occurs_at(s, p, i)
}

/// Whether `p` occurs in `s`.
pub fn find_text(s: &Vec<char>, p: &Vec<char>) -> (res: bool)
    ensures
        res == contains_text(s@, p@),
{
    if p.len() > s.len() {
        proof {
            assert forall|i: int| !occurs_at(s@, p@, i) by {}
        }
        return false;
    }
    let last = s.len() - p.len();
    let mut i: usize = 0;
    while i < last
        invariant
            i <= last,
            last == s@.len() - p@.len(),
            p@.len() <= s@.len() <= usize::MAX,
            forall|j: int| 0 <= j < i ==> !occurs_at(s@, p@, j),
        decreases last - i,
    {
        let w = sub_chars(s, i, i + p.len());
        if chars_equal(&w, p) {
            proof {
                assert(occurs_at(s@, p@, i as int));
            }
            return true;
        }
        i += 1;
    }
    let w = sub_chars(s, last, s.len());
    let found = chars_equal(&w, p);
    proof {
        if found {
            assert(occurs_at(s@, p@, last as int));
        } else {
            assert forall|j: int| !occurs_at(s@, p@, j) by {
                if 0 <= j < last {
                } else if j == last {
                }
            }
        }
    }
    found
}

/// `str::trim_end_matches(p)` for a non-empty pattern: every trailing copy of
/// `p` removed.
pub open spec fn strip_suffixes(s: Seq<char>, p: Seq<char>) -> Seq<char>
    decreases s.len(),
{
    if p.len() > 0 && has_suffix(s, p) {
        strip_suffixes(s.subrange(0, s.len() - p.len()), p)
    } else {
        s
    }
}

pub fn trim_end_matches(s: &Vec<char>, p: &Vec<char>) -> (res: Vec<char>)
    requires
        p@.len() > 0,
    ensures
        res@ == strip_suffixes(s@, p@),
{
    let mut cur = sub_chars(s, 0, s.len());
    proof {
        assert(cur@ =~= s@);
    }
    while ends_with(&cur, p)
        invariant
            p@.len() > 0,
            strip_suffixes(s@, p@) == strip_suffixes(cur@, p@),
        decreases cur@.len(),
    {
        let m = cur.len() - p.len();
        cur = sub_chars(&cur, 0, m);
    }
    cur
}

// ---------------------------------------------------------------------------
// Lines.

/// The pieces of `s` between `sep` characters (one more than there are
/// separators), as `str::split(sep)` yields them.
pub open spec fn pieces(s: Seq<char>, sep: char) -> Seq<Seq<char>>
    decreases s.len(),
{
    if s.len() == 0 {
        seq![seq![]]
    } else {
        let p = pieces(s.drop_last(), sep);
        if s.last() == sep {
            p.push(seq![])
        } else {
            p.update(p.len() - 1, p.last().push(s.last()))
        }
    }
}

/// A line terminated by `\n` loses one trailing `\r`.
pub open spec fn strip_cr(l: Seq<char>) -> Seq<char> {
    if l.len() > 0 && l.last() == '\r' {
        l.drop_last()
    } else {
        l
    }
}

/// `str::lines`: the lines of `s`, split at `\n` or `\r\n`; a final line
/// ending is optional and an empty string has no lines.
pub open spec fn lines(s: Seq<char>) -> Seq<Seq<char>> {
    let p = pieces(s, '\n');
    let ended = p.drop_last().map_values(|l: Seq<char>| strip_cr(l));
    if s.len() == 0 || s.last() == '\n' {
        ended
    } else {
        ended.push(p.last())
    }
}

pub open spec fn views(v: Seq<Vec<char>>) -> Seq<Seq<char>> {
    v.map_values(|x: Vec<char>| x@)
}

pub proof fn lemma_pieces_nonempty(s: Seq<char>, sep: char)
    ensures
        pieces(s, sep).len() >= 1,
        s.len() > 0 && s.last() != sep ==> pieces(s, sep).last().len() > 0,
    decreases s.len(),
{
    if s.len() > 0 {
        lemma_pieces_nonempty(s.drop_last(), sep);
    }
}

fn strip_cr_exec(l: Vec<char>) -> (res: Vec<char>)
    ensures
        res@ == strip_cr(l@),
{
    let ghost orig = l@;
    let mut l = l;
    if l.len() > 0 && l[l.len() - 1] == '\r' {
        l.pop();
        proof {
            assert(l@ =~= strip_cr(orig));
        }
    }
    l
}

/// Splits text into lines as `str::lines` does.
pub fn split_lines(s: &Vec<char>) -> (res: Vec<Vec<char>>)
    ensures
        views(res@) == lines(s@),
{
    let mut out: Vec<Vec<char>> = Vec::new();
    let mut cur: Vec<char> = Vec::new();
    let mut i: usize = 0;
    let ghost f = |l: Seq<char>| strip_cr(l);
    proof {
        assert(views(out@) =~= pieces(s@.subrange(0, 0), '\n').drop_last().map_values(f));
        assert(s@.subrange(0, 0) =~= Seq::<char>::empty());
    }
    while i < s.len()
        invariant
            i <= s@.len(),
            f == (|l: Seq<char>| strip_cr(l)),
            views(out@) == pieces(s@.subrange(0, i as int), '\n').drop_last().map_values(f),
            cur@ == pieces(s@.subrange(0, i as int), '\n').last(),
        decreases s@.len() - i,
    {
        let c = s[i];
        let ghost pre = s@.subrange(0, i as int);
        let ghost nxt = s@.subrange(0, i + 1);
        proof {
            assert(nxt.drop_last() =~= pre);
            assert(nxt.last() == c);
            lemma_pieces_nonempty(pre, '\n');
        }
        if c == '\n' {
            let mut done: Vec<char> = Vec::new();
            std::mem::swap(&mut done, &mut cur);
            let line = strip_cr_exec(done);
            let ghost before = out@;
            out.push(line);
            proof {
                assert(pieces(nxt, '\n') == pieces(pre, '\n').push(seq![]));
                assert(pieces(nxt, '\n').drop_last() =~= pieces(pre, '\n'));
                assert(pieces(pre, '\n') =~= pieces(pre, '\n').drop_last().push(pieces(pre, '\n').last()));
                assert(views(out@) =~= views(before).push(strip_cr(pieces(pre, '\n').last())));
                assert(pieces(pre, '\n').map_values(f) =~= pieces(pre, '\n').drop_last().map_values(f).push(f(pieces(pre, '\n').last())));
            }
        } else {
            cur.push(c);
            proof {
                let p = pieces(pre, '\n');
                assert(pieces(nxt, '\n') == p.update(p.len() - 1, p.last().push(c)));
                assert(pieces(nxt, '\n').drop_last() =~= p.drop_last());
            }
        }
        i += 1;
    }
    proof {
        assert(s@.subrange(0, i as int) =~= s@);
        lemma_pieces_nonempty(s@, '\n');
    }
    if cur.len() > 0 {
        let ghost before = out@;
        out.push(cur);
        proof {
            assert(views(out@) =~= views(before).push(pieces(s@, '\n').last()));
        }
    } else {
        proof {
            if s@.len() > 0 && s@.last() != '\n' {
                assert(false);
            }
        }
    }
    out
}


/// Splits `s` at every `sep`, as `str::split(sep)` does.
pub fn split_by(s: &Vec<char>, sep: char) -> (res: Vec<Vec<char>>)
    ensures
        views(res@) == pieces(s@, sep),
{
    let mut out: Vec<Vec<char>> = Vec::new();
    let mut cur: Vec<char> = Vec::new();
    let mut i: usize = 0;
    proof {
        assert(s@.subrange(0, 0) =~= Seq::<char>::empty());
        assert(views(out@) =~= pieces(s@.subrange(0, 0), sep).drop_last());
    }
    while i < s.len()
        invariant
            i <= s@.len(),
            views(out@) == pieces(s@.subrange(0, i as int), sep).drop_last(),
            cur@ == pieces(s@.subrange(0, i as int), sep).last(),
        decreases s@.len() - i,
    {
        let c = s[i];
        let ghost pre = s@.subrange(0, i as int);
        let ghost nxt = s@.subrange(0, i + 1);
        proof {
            assert(nxt.drop_last() =~= pre);
            assert(nxt.last() == c);
            lemma_pieces_nonempty(pre, sep);
        }
        if c == sep {
            let mut done: Vec<char> = Vec::new();
            std::mem::swap(&mut done, &mut cur);
            let ghost before = out@;
            out.push(done);
            proof {
                assert(pieces(nxt, sep) == pieces(pre, sep).push(seq![]));
                assert(pieces(nxt, sep).drop_last() =~= pieces(pre, sep));
                assert(pieces(pre, sep) =~= pieces(pre, sep).drop_last().push(pieces(pre, sep).last()));
                assert(views(out@) =~= views(before).push(pieces(pre, sep).last()));
            }
        } else {
            cur.push(c);
            proof {
                let p = pieces(pre, sep);
                assert(pieces(nxt, sep) == p.update(p.len() - 1, p.last().push(c)));
                assert(pieces(nxt, sep).drop_last() =~= p.drop_last());
            }
        }
        i += 1;
    }
    proof {
        assert(s@.subrange(0, i as int) =~= s@);
        lemma_pieces_nonempty(s@, sep);
    }
    let ghost before = out@;
    out.push(cur);
    proof {
        assert(views(out@) =~= views(before).push(pieces(s@, sep).last()));
        assert(pieces(s@, sep) =~= pieces(s@, sep).drop_last().push(pieces(s@, sep).last()));
    }
    out
}

pub open spec fn trim_ws() -> spec_fn(Seq<char>) -> Seq<char> {
    |f: Seq<char>| trim(f, TrimSet::Whitespace)
}

/// The pieces of `s` between `sep` characters, each trimmed of whitespace.
pub open spec fn trimmed_pieces(s: Seq<char>, sep: char) -> Seq<Seq<char>> {
    pieces(s, sep).map_values(trim_ws())
}

/// Splits `line` at every `sep` and trims each piece of whitespace.
pub fn split_trimmed(line: &Vec<char>, sep: char) -> (res: Vec<Vec<char>>)
    ensures
        views(res@) == trimmed_pieces(line@, sep),
{
    let ps = split_by(line, sep);
    let ghost pv = views(ps@);
    let mut out: Vec<Vec<char>> = Vec::new();
    let mut i: usize = 0;
    while i < ps.len()
        invariant
            i <= ps@.len(),
            pv == views(ps@),
            pv == pieces(line@, sep),
            views(out@) == pv.take(i as int).map_values(trim_ws()),
        decreases ps@.len() - i,
    {
        let t = trim_chars(&ps[i], &TrimSet::Whitespace);
        let ghost before = out@;
        out.push(t);
        proof {
            assert(pv[i as int] == ps@[i as int]@);
            assert(views(out@) =~= views(before).push(t@));
            assert(trim_ws()(pv[i as int]) == t@);
            assert(pv.take(i + 1) =~= pv.take(i as int).push(pv[i as int]));
            assert(views(out@) =~= pv.take(i + 1).map_values(trim_ws()));
        }
        i += 1;
    }
    proof {
        assert(pv.take(i as int) =~= pv);
    }
    out
}

/// First index of `c` in `s`.
pub open spec fn first_index_of(s: Seq<char>, c: char) -> Option<int>
    decreases s.len(),
{
    if s.len() == 0 {
        None
    } else if s[0] == c {
        Some(0)
    } else {
        match first_index_of(s.drop_first(), c) {
            Some(i) => Some(i + 1),
            None => None,
        }
    }
}

/// Index of the first `c` in `l`.
pub fn first_char_index(l: &Vec<char>, c: char) -> (res: Option<usize>)
    ensures
        match res {
            Some(p) => first_index_of(l@, c) == Some(p as int) && p < l@.len(),
            None => first_index_of(l@, c) is None,
        },
{
    let mut i: usize = 0;
    proof {
        assert(l@.skip(0) =~= l@);
    }
    while i < l.len()
        invariant
            i <= l@.len(),
            first_index_of(l@, c) == match first_index_of(l@.skip(i as int), c) {
                Some(q) => Some(q + i),
                None => None,
            },
        decreases l@.len() - i,
    {
        proof {
            assert(l@.skip(i as int)[0] == l@[i as int]);
            assert(l@.skip(i as int).drop_first() =~= l@.skip(i + 1));
        }
        if l[i] == c {
            return Some(i);
        }
        i += 1;
    }
    None
}

/// `s` with every `c` replaced by `r` (`str::replace` with a `char` pattern).
pub open spec fn replace_char(s: Seq<char>, c: char, r: Seq<char>) -> Seq<char> {
    s.map_values(replacer(c, r)).flatten()
}

pub open spec fn replacer(c: char, r: Seq<char>) -> spec_fn(char) -> Seq<char> {
    |x: char| if x == c { r } else { seq![x] }
}

/// Replaces every `c` of `s` by `r`.
pub fn replace_char_exec(s: &Vec<char>, c: char, r: &Vec<char>) -> (res: Vec<char>)
    ensures
        res@ == replace_char(s@, c, r@),
{
    let ghost f = replacer(c, r@);
    let mut out: Vec<char> = Vec::new();
    let mut i: usize = 0;
    proof {
        assert(s@.take(0).map_values(f) =~= Seq::<Seq<char>>::empty());
        assert(out@ =~= s@.take(0).map_values(f).flatten());
    }
    while i < s.len()
        invariant
            i <= s@.len(),
            f == replacer(c, r@),
            out@ == s@.take(i as int).map_values(f).flatten(),
        decreases s@.len() - i,
    {
        let ghost before = out@;
        if s[i] == c {
            let mut k: usize = 0;
            while k < r.len()
                invariant
                    k <= r@.len(),
                    out@ == before + r@.subrange(0, k as int),
                decreases r@.len() - k,
            {
                out.push(r[k]);
                proof {
                    assert(out@ =~= before + r@.subrange(0, k + 1));
                }
                k += 1;
            }
            proof {
                assert(r@.subrange(0, r@.len() as int) =~= r@);
            }
        } else {
            out.push(s[i]);
        }
        proof {
            assert(out@ =~= before + f(s@[i as int]));
            assert(s@.take(i + 1).map_values(f) =~= s@.take(i as int).map_values(f).push(f(s@[i as int])));
            s@.take(i as int).map_values(f).lemma_flatten_push(f(s@[i as int]));
        }
        i += 1;
    }
    proof {
        assert(s@.take(i as int) =~= s@);
    }
    out
}

/// `str::replace` with a non-empty text pattern: every occurrence of `p`,
/// found left to right without overlapping, replaced by `r`.
pub open spec fn replace_text(s: Seq<char>, p: Seq<char>, r: Seq<char>) -> Seq<char>
    decreases s.len(),
{
    if s.len() == 0 || p.len() == 0 {
        s
    } else if has_prefix(s, p) {
        r + replace_text(s.skip(p.len() as int), p, r)
    } else {
        seq![s[0]] + replace_text(s.skip(1), p, r)
    }
}

/// Replaces every occurrence of `p` in `s` by `r`, left to right.
pub fn replace_text_exec(s: &Vec<char>, p: &Vec<char>, r: &Vec<char>) -> (res: Vec<char>)
    requires
        p@.len() > 0,
    ensures
        res@ == replace_text(s@, p@, r@),
{
    let mut out: Vec<char> = Vec::new();
    let mut i: usize = 0;
    let n = s.len();
    proof {
        assert(s@.skip(0) =~= s@);
        assert(out@ + replace_text(s@.skip(0), p@, r@) =~= replace_text(s@, p@, r@));
    }
    while i < n
        invariant
            n == s@.len(),
            i <= n,
            p@.len() > 0,
            out@ + replace_text(s@.skip(i as int), p@, r@) == replace_text(s@, p@, r@),
        decreases n - i,
    {
        let ghost rest = s@.skip(i as int);
        let ghost before = out@;
        let matched = p.len() <= n - i && chars_equal(&sub_chars(s, i, i + p.len()), p);
        if matched {
            proof {
                assert(rest.subrange(0, p@.len() as int) =~= s@.subrange(i as int, i + p@.len()));
                assert(has_prefix(rest, p@));
                assert(rest.skip(p@.len() as int) =~= s@.skip(i + p@.len()));
            }
            let mut k: usize = 0;
            while k < r.len()
                invariant
                    k <= r@.len(),
                    out@ == before + r@.subrange(0, k as int),
                decreases r@.len() - k,
            {
                out.push(r[k]);
                proof {
                    assert(out@ =~= before + r@.subrange(0, k + 1));
                }
                k += 1;
            }
            proof {
                assert(r@.subrange(0, r@.len() as int) =~= r@);
                assert(out@ + replace_text(s@.skip(i + p@.len()), p@, r@) =~= before + replace_text(rest, p@, r@));
            }
            i = i + p.len();
        } else {
            proof {
                if p@.len() <= n - i {
                    assert(rest.subrange(0, p@.len() as int) =~= s@.subrange(i as int, i + p@.len()));
                }
                assert(!has_prefix(rest, p@));
                assert(rest[0] == s@[i as int]);
                assert(rest.skip(1) =~= s@.skip(i + 1));
            }
            out.push(s[i]);
            proof {
                assert(out@ + replace_text(s@.skip(i + 1), p@, r@) =~= before + replace_text(rest, p@, r@));
            }
            i += 1;
        }
    }
    proof {
        assert(s@.skip(i as int) =~= Seq::<char>::empty());
        assert(out@ + replace_text(s@.skip(i as int), p@, r@) =~= out@);
    }
    out
}

/// Whether two character vectors are equal.
pub fn chars_equal(a: &Vec<char>, b: &Vec<char>) -> (res: bool)
    ensures
        res == (a@ == b@),
{
    if a.len() != b.len() {
        return false;
    }
    let mut i: usize = 0;
    while i < a.len()
        invariant
            i <= a@.len() == b@.len(),
            forall|j: int| 0 <= j < i ==> a@[j] == b@[j],
        decreases a@.len() - i,
    {
        if a[i] != b[i] {
            return false;
        }
        i += 1;
    }
    proof {
        assert(a@ =~= b@);
    }
    true
}


/// The pieces of `s` between whitespace characters.
pub open spec fn ws_pieces(s: Seq<char>) -> Seq<Seq<char>>
    decreases s.len(),
{
    if s.len() == 0 {
        seq![seq![]]
    } else {
        let p = ws_pieces(s.drop_last());
        if is_ws(s.last()) {
            p.push(seq![])
        } else {
            p.update(p.len() - 1, p.last().push(s.last()))
        }
    }
}

pub open spec fn non_empty() -> spec_fn(Seq<char>) -> bool {
    |p: Seq<char>| p.len() > 0
}

/// `str::split_whitespace`: the maximal runs of non-whitespace characters.
pub open spec fn words(s: Seq<char>) -> Seq<Seq<char>> {
    ws_pieces(s).filter(non_empty())
}

proof fn lemma_ws_pieces_nonempty(s: Seq<char>)
    ensures
        ws_pieces(s).len() >= 1,
    decreases s.len(),
{
    if s.len() > 0 {
        lemma_ws_pieces_nonempty(s.drop_last());
    }
}

/// Splits `s` into its whitespace-separated words.
pub fn split_whitespace(s: &Vec<char>) -> (res: Vec<Vec<char>>)
    ensures
        views(res@) == words(s@),
{
    let ws = TrimSet::Whitespace;
    let mut out: Vec<Vec<char>> = Vec::new();
    let mut cur: Vec<char> = Vec::new();
    let mut i: usize = 0;
    proof {
        assert(s@.subrange(0, 0) =~= Seq::<char>::empty());
        reveal(Seq::filter);
        assert(views(out@) =~= ws_pieces(s@.subrange(0, 0)).drop_last().filter(non_empty()));
    }
    while i < s.len()
        invariant
            i <= s@.len(),
            ws == TrimSet::Whitespace,
            views(out@) == ws_pieces(s@.subrange(0, i as int)).drop_last().filter(non_empty()),
            cur@ == ws_pieces(s@.subrange(0, i as int)).last(),
        decreases s@.len() - i,
    {
        let c = s[i];
        let ghost pre = s@.subrange(0, i as int);
        let ghost nxt = s@.subrange(0, i + 1);
        proof {
            assert(nxt.drop_last() =~= pre);
            assert(nxt.last() == c);
            lemma_ws_pieces_nonempty(pre);
        }
        if trims_exec(&ws, c) {
            let mut done: Vec<char> = Vec::new();
            std::mem::swap(&mut done, &mut cur);
            let ghost before = out@;
            let ghost d = done@;
            if done.len() > 0 {
                out.push(done);
            }
            proof {
                let p = ws_pieces(pre);
                assert(ws_pieces(nxt) == p.push(seq![]));
                assert(ws_pieces(nxt).drop_last() =~= p);
                assert(p =~= p.drop_last().push(p.last()));
                p.drop_last().lemma_filter_push(p.last(), non_empty());
                assert(views(out@) =~= p.filter(non_empty()));
            }
        } else {
            cur.push(c);
            proof {
                let p = ws_pieces(pre);
                assert(ws_pieces(nxt) == p.update(p.len() - 1, p.last().push(c)));
                assert(ws_pieces(nxt).drop_last() =~= p.drop_last());
            }
        }
        i += 1;
    }
    proof {
        assert(s@.subrange(0, i as int) =~= s@);
        lemma_ws_pieces_nonempty(s@);
        let p = ws_pieces(s@);
        assert(p =~= p.drop_last().push(p.last()));
        p.drop_last().lemma_filter_push(p.last(), non_empty());
    }
    if cur.len() > 0 {
        let ghost before = out@;
        out.push(cur);
        proof {
            assert(views(out@) =~= views(before).push(ws_pieces(s@).last()));
        }
    }
    out
}

} // verus!
