//! The identity under which motion vectors of two dumps are matched: frame,
//! integer endpoints and reference direction.

use vstd::prelude::*;
use crate::text::{decimal_text, int_text};
use vstd::string::*;

verus! {

/// Identity of a motion vector in a comparison. Keys are ordered
/// lexicographically by their fields, in declaration order.
#[derive(Clone, Copy, Debug, PartialEq, Eq, Hash, PartialOrd, Ord, Structural)]
pub struct Key {
    pub frame: i32,
    pub src_x: i64,
    pub src_y: i64,
    pub dst_x: i64,
    pub dst_y: i64,
    pub source: i32,
}

/// Strict lexicographic order on keys (the order of the derived `Ord`).
pub open spec fn key_lt(a: Key, b: Key) -> bool {
    if a.frame != b.frame {
        a.frame < b.frame
    } else if a.src_x != b.src_x {
        a.src_x < b.src_x
    } else if a.src_y != b.src_y {
        a.src_y < b.src_y
    } else if a.dst_x != b.dst_x {
        a.dst_x < b.dst_x
    } else if a.dst_y != b.dst_y {
        a.dst_y < b.dst_y
    } else {
        a.source < b.source
    }
}

pub open spec fn key_le(a: Key, b: Key) -> bool {
    key_lt(a, b) || a == b
}

/// `key_lt` is a strict total order.
pub proof fn lemma_key_order(a: Key, b: Key, c: Key)
    ensures
        !key_lt(a, a),
        key_lt(a, b) ==> !key_lt(b, a),
        key_lt(a, b) || key_lt(b, a) || a == b,
        key_lt(a, b) && key_lt(b, c) ==> key_lt(a, c),
        key_le(a, b) && key_le(b, c) ==> key_le(a, c),
        key_le(a, b) && key_le(b, a) ==> a == b,
{
}

/// The human-readable rendering of a key used in comparison reports.
pub open spec fn key_display(k: Key) -> Seq<char> {
    "Frame "@ + int_text(k.frame as int) + " src=("@ + int_text(k.src_x as int) + ","@
        + int_text(k.src_y as int) + ") dst=("@ + int_text(k.dst_x as int) + ","@
        + int_text(k.dst_y as int) + ") source="@ + int_text(k.source as int)
}

impl Key {
    /// `self <= other` in the key order.
    pub fn precedes_or_equals(&self, other: &Key) -> (res: bool)
        ensures
            res == key_le(*self, *other),
    {
        if self.frame != other.frame {
            self.frame < other.frame
        } else if self.src_x != other.src_x {
            self.src_x < other.src_x
        } else if self.src_y != other.src_y {
            self.src_y < other.src_y
        } else if self.dst_x != other.dst_x {
            self.dst_x < other.dst_x
        } else if self.dst_y != other.dst_y {
            self.dst_y < other.dst_y
        } else {
            self.source <= other.source
        }
    }

    /// `Frame <f> src=(<x>,<y>) dst=(<x>,<y>) source=<s>`.
    pub fn display(&self) -> (res: String)
        ensures
            res@ == key_display(*self),
    {
        let mut s = String::new();
        s.append("Frame ");
        s.append(decimal_text(self.frame as i128).as_str());
        s.append(" src=(");
        s.append(decimal_text(self.src_x as i128).as_str());
        s.append(",");
        s.append(decimal_text(self.src_y as i128).as_str());
        s.append(") dst=(");
        s.append(decimal_text(self.dst_x as i128).as_str());
        s.append(",");
        s.append(decimal_text(self.dst_y as i128).as_str());
        s.append(") source=");
        s.append(decimal_text(self.source as i128).as_str());
        proof {
            assert(s@ =~= key_display(*self));
        }
        s
    }
}

} // verus!
