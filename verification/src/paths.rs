//! `/`-separated paths as text: joining, file names and stems, with the
//! meaning `std::path` gives them on Unix.

use vstd::prelude::*;
use vstd::string::*;
use crate::scan::{pieces, split_by, views, chars_equal, sub_chars};
use crate::text::{chars_of, string_from_chars};

verus! {

broadcast use vstd::seq_lib::group_seq_lib_default;

/// `base.join(comp)`: an absolute `comp` replaces `base`; otherwise `comp`
/// is appended after a `/` unless `base` is empty or already ends in one.
pub open spec fn path_join(base: Seq<char>, comp: Seq<char>) -> Seq<char> {
    if comp.len() > 0 && comp[0] == '/' {
        comp
    } else if base.len() == 0 || base.last() == '/' {
        base + comp
    } else {
        base + "/"@ + comp
    }
}

/// The last path component that is neither empty nor `.`, if any.
pub open spec fn last_component(ps: Seq<Seq<char>>) -> Option<Seq<char>>
    decreases ps.len(),
{
    if ps.len() == 0 {
        None
    } else if ps.last().len() > 0 && ps.last() != "."@ {
        Some(ps.last())
    } else {
        last_component(ps.drop_last())
    }
}

/// `Path::file_name` of a `/`-separated path: its last normal component;
/// none when the path has no component or ends in `..`.
pub open spec fn file_name(p: Seq<char>) -> Option<Seq<char>> {
    match last_component(pieces(p, '/')) {
        Some(c) => if c == ".."@ { None } else { Some(c) },
        None => None,
    }
}

/// Index of the last `c` in `s`.
pub open spec fn last_index_of(s: Seq<char>, c: char) -> Option<int>
    decreases s.len(),
{
    if s.len() == 0 {
        None
    } else if s.last() == c {
        Some(s.len() - 1)
    } else {
        last_index_of(s.drop_last(), c)
    }
}

/// `Path::extension`: what follows the last `.` of the file name, unless the
/// name has no `.` or its only `.` is the first character.
pub open spec fn extension(p: Seq<char>) -> Option<Seq<char>> {
    match file_name(p) {
        Some(f) => match last_index_of(f, '.') {
            Some(i) => if i == 0 { None } else { Some(f.subrange(i + 1, f.len() as int)) },
            None => None,
        },
        None => None,
    }
}

/// `Path::file_stem`: the file name without its last extension; the whole
/// name when it has no `.` or its only `.` is the first character.
pub open spec fn file_stem(p: Seq<char>) -> Option<Seq<char>> {
    match file_name(p) {
        Some(f) => match last_index_of(f, '.') {
            Some(i) => if i == 0 { Some(f) } else { Some(f.subrange(0, i)) },
            None => Some(f),
        },
        None => None,
    }
}

/// The file name of a `/`-separated path, as `Path::file_name` gives it.
pub fn file_name_of(p: &Vec<char>) -> (res: Option<Vec<char>>)
    ensures
        match res {
            Some(v) => file_name(p@) == Some(v@),
            None => file_name(p@) is None,
        },
{
    let ps = split_by(p, '/');
    let dot = chars_of(".");
    let dotdot = chars_of("..");
    let mut i = ps.len();
    proof {
        assert(views(ps@).take(i as int) =~= views(ps@));
    }
    while i > 0
        invariant
            i <= ps@.len(),
            dot@ == "."@,
            dotdot@ == ".."@,
            views(ps@) == pieces(p@, '/'),
            last_component(pieces(p@, '/')) == last_component(views(ps@).take(i as int)),
        decreases i,
    {
        let c = &ps[i - 1];
        proof {
            assert(views(ps@).take(i as int).drop_last() =~= views(ps@).take(i - 1));
            assert(views(ps@).take(i as int).last() == c@);
        }
        if c.len() > 0 && !chars_equal(c, &dot) {
            if chars_equal(c, &dotdot) {
                return None;
            }
            return Some(sub_chars(c, 0, c.len()));
        }
        i -= 1;
    }
    None
}

/// Index of the last `.` of `name`.
pub fn last_dot_index(name: &Vec<char>) -> (res: Option<usize>)
    ensures
        match res {
            Some(i) => last_index_of(name@, '.') == Some(i as int) && i < name@.len(),
            None => last_index_of(name@, '.') is None,
        },
{
    let mut i = name.len();
    proof {
        assert(name@.take(i as int) =~= name@);
    }
    while i > 0 && name[i - 1] != '.'
        invariant
            i <= name@.len(),
            last_index_of(name@, '.') == last_index_of(name@.take(i as int), '.'),
        decreases i,
    {
        proof {
            assert(name@.take(i as int).drop_last() =~= name@.take(i - 1));
        }
        i -= 1;
    }
    if i == 0 {
        proof {
            assert(name@.take(0) =~= Seq::<char>::empty());
        }
        None
    } else {
        proof {
            assert(name@.take(i as int).last() == '.');
        }
        Some(i - 1)
    }
}

/// The file stem of a path (`Path::file_stem`).
pub fn file_stem_of(path: &str) -> (res: Option<String>)
    ensures
        match res {
            Some(s) => file_stem(path@) == Some(s@),
            None => file_stem(path@) is None,
        },
{
    let name = match file_name_of(&chars_of(path)) {
        Some(n) => n,
        None => return None,
    };
    match last_dot_index(&name) {
        Some(i) => if i == 0 {
            Some(string_from_chars(&name))
        } else {
            Some(string_from_chars(&sub_chars(&name, 0, i)))
        },
        None => Some(string_from_chars(&name)),
    }
}

/// Joins a path component onto a base path (`Path::join`).
pub fn join_path(base: &str, comp: &str) -> (res: String)
    ensures
        res@ == path_join(base@, comp@),
{
    let c = chars_of(comp);
    if c.len() > 0 && c[0] == '/' {
        return comp.to_owned();
    }
    let b = chars_of(base);
    let mut s = base.to_owned();
    if !(b.len() == 0 || b[b.len() - 1] == '/') {
        s.append("/");
    }
    s.append(comp);
    proof {
        assert(s@ =~= path_join(base@, comp@));
    }
    s
}

} // verus!
