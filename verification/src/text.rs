//! Text primitives shared by the rest of the crate: decimal and hexadecimal
//! rendering of integers, conversion between `str` and character vectors.

use vstd::prelude::*;
use vstd::std_specs::iter::IteratorSpec;

verus! {

/// The ASCII character of a decimal digit (`0 <= d < 10`).
pub open spec fn digit_char(d: int) -> char {
    (48 + d) as char
}

/// Decimal digits of a natural number, most significant first, no leading zeros.
pub open spec fn nat_text(n: nat) -> Seq<char>
    decreases n,
{
    if n < 10 {
        seq![digit_char(n as int)]
    } else {
        nat_text(n / 10).push(digit_char((n % 10) as int))
    }
}

/// Decimal text of an integer, with a leading `-` for negative values.
pub open spec fn int_text(v: int) -> Seq<char> {
    if v < 0 {
        seq!['-'] + nat_text((-v) as nat)
    } else {
        nat_text(v as nat)
    }
}

/// Decimal text of an `i128`, as written by `itoa::Buffer::format`.
///
/// Trusted: `itoa::Buffer::format` prints the decimal representation of the
/// integer, with a leading minus sign for negative values and no padding.
#[verifier::external_body]
pub(crate) fn decimal_text(v: i128) -> (res: String)
    ensures
        res@ == int_text(v as int),
{
    let mut buf = itoa::Buffer::new();
    buf.format(v).to_string()
}

/// The characters of a string slice, in order.
pub fn chars_of(s: &str) -> (res: Vec<char>)
    ensures
        res@ == s@,
{
    let mut out: Vec<char> = Vec::new();
    for c in it: s.chars()
        invariant
            out@ == it.seq().take(it.index() as int),
            it.seq() == s@,
    {
        out.push(c);
    }
    out
}


/// A string holding exactly the given characters.
///
/// Trusted: collecting an iterator of `char`s into a `String`
/// (`FromIterator<&char> for String`) appends them in order.
#[verifier::external_body]
pub(crate) fn string_from_chars(cs: &Vec<char>) -> (res: String)
    ensures
        res@ == cs@,
{
    cs.iter().collect()
}

/// Lower-case hexadecimal digit of `0 <= d < 16`.
pub open spec fn hex_digit(d: int) -> char {
    if d < 10 {
        (48 + d) as char
    } else {
        (87 + d) as char
    }
}

/// Lower-case hexadecimal digits of a natural number, no leading zeros.
pub open spec fn hex_text(n: nat) -> Seq<char>
    decreases n,
{
    if n < 16 {
        seq![hex_digit(n as int)]
    } else {
        hex_text(n / 16).push(hex_digit((n % 16) as int))
    }
}

fn hex_digit_char(d: u64) -> (c: char)
    requires
        d < 16,
    ensures
        c == hex_digit(d as int),
{
    let b = d as u8;
    if b < 10 {
        (48u8 + b) as char
    } else {
        (87u8 + b) as char
    }
}

/// Lower-case hexadecimal text of `v` without prefix (as `format!("{:x}", v)`).
pub fn hex_string(v: u64) -> (res: String)
    ensures
        res@ == hex_text(v as nat),
{
    let mut acc: Vec<char> = Vec::new();
    if v == 0 {
        acc.push('0');
        return string_from_chars(&acc);
    }
    let mut cur = v;
    while cur > 0
        invariant
            hex_text(v as nat) == (if cur == 0 { Seq::<char>::empty() } else { hex_text(cur as nat) }) + acc@,
        decreases cur,
    {
        let d = hex_digit_char(cur % 16);
        let ghost old_acc = acc@;
        acc.insert(0, d);
        proof {
            assert(acc@ =~= seq![d] + old_acc);
            let c = cur as nat;
            if c < 16 {
                assert(c / 16 == 0);
                assert(c % 16 == c);
                assert(hex_text(c) =~= seq![d]);
            } else {
                assert(hex_text(c) == hex_text(c / 16).push(hex_digit((c % 16) as int)));
                assert(hex_text(c) =~= hex_text(c / 16) + seq![d]);
            }
            assert(hex_text(v as nat) =~= (if cur / 16 == 0 { Seq::<char>::empty() } else { hex_text((cur / 16) as nat) }) + acc@);
        }
        cur = cur / 16;
    }
    string_from_chars(&acc)
}

} // verus!
