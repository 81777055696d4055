//! Command-line and process-status parsing shared by the extractor binaries.

use vstd::prelude::*;
use crate::scan::{
    TrimSet, trim, trim_chars, strip_suffixes, trim_end_matches, has_prefix, starts_with,
    i32_of, i64_of, parse_i32, parse_i64, lines, split_lines, views, sub_chars,
};
use crate::text::chars_of;

verus! {

/// CLI arguments shared by every extractor binary.
///
/// Layout: `<input file> <print mv> <output file> <is verbose> <is single threaded>`
pub struct ExtractorArgs {
    pub video_file: String,
    pub do_print: bool,
    pub output_file: String,
    pub is_verbose: bool,
    pub is_single_threaded: bool,
}

/// A numeric flag argument is set when it parses as a non-zero `i32`;
/// anything that does not parse counts as `0`.
pub open spec fn flag_arg(s: Seq<char>) -> bool {
    match i32_of(s) {
        Some(v) => v != 0,
        None => false,
    }
}

fn parse_flag_arg(s: &String) -> (res: bool)
    ensures
        res == flag_arg(s@),
{
    let cs = chars_of(s.as_str());
    match parse_i32(&cs) {
        Some(v) => v != 0,
        None => false,
    }
}

impl ExtractorArgs {
    /// Reads the arguments from the full argument vector (program name
    /// first). `None` when fewer than five arguments follow the program name.
    pub fn from_args(argv: &Vec<String>) -> (res: Option<ExtractorArgs>)
        ensures
            res is None <==> argv@.len() < 6,
            res matches Some(a) ==> {
                &&& a.video_file@ == argv@[1]@
                &&& a.do_print == flag_arg(argv@[2]@)
                &&& a.output_file@ == argv@[3]@
                &&& a.is_verbose == flag_arg(argv@[4]@)
                &&& a.is_single_threaded == flag_arg(argv@[5]@)
            },
    {
        if argv.len() < 6 {
            return None;
        }
        Some(ExtractorArgs {
            video_file: argv[1].clone(),
            do_print: parse_flag_arg(&argv[2]),
            output_file: argv[3].clone(),
            is_verbose: parse_flag_arg(&argv[4]),
            is_single_threaded: parse_flag_arg(&argv[5]),
        })
    }
}

/// The resident-set size read from the rest of a `VmRSS:` line: the value
/// trimmed, stripped of its ` kB` unit and parsed, `0` if that fails.
pub open spec fn rss_value(rest: Seq<char>) -> i64 {
    let v = trim(strip_suffixes(trim(rest, TrimSet::Whitespace), " kB"@), TrimSet::Whitespace);
    match i64_of(v) {
        Some(x) => x,
        None => 0,
    }
}

/// The value of the first `VmRSS:` line, `0` if there is none.
pub open spec fn vm_rss_in(ls: Seq<Seq<char>>) -> i64
    decreases ls.len(),
{
    if ls.len() == 0 {
        0
    } else if has_prefix(ls[0], "VmRSS:"@) {
        rss_value(ls[0].subrange("VmRSS:"@.len() as int, ls[0].len() as int))
    } else {
        vm_rss_in(ls.drop_first())
    }
}

/// The current resident-set size in kilobytes, from the text of
/// `/proc/self/status`; `0` when it cannot be read from it.
pub fn parse_vm_rss_kb(status: &str) -> (kb: i64)
    ensures
        kb == vm_rss_in(lines(status@)),
{
    let cs = chars_of(status);
    let ls = split_lines(&cs);
    let prefix = chars_of("VmRSS:");
    let unit = chars_of(" kB");
    let mut i: usize = 0;
    proof {
        assert(views(ls@).skip(0) =~= views(ls@));
    }
    while i < ls.len()
        invariant
            i <= ls@.len(),
            cs@ == status@,
            prefix@ == "VmRSS:"@,
            unit@ == " kB"@,
            views(ls@) == lines(cs@),
            vm_rss_in(lines(cs@)) == vm_rss_in(views(ls@).skip(i as int)),
        decreases ls@.len() - i,
    {
        let line = &ls[i];
        proof {
            assert(views(ls@).skip(i as int)[0] == line@);
            assert(views(ls@).skip(i as int).drop_first() =~= views(ls@).skip(i + 1));
        }
        if starts_with(line, &prefix) {
            let rest = sub_chars(line, prefix.len(), line.len());
            let t1 = trim_chars(&rest, &TrimSet::Whitespace);
            proof {
                assert(" kB"@.len() > 0) by {
                    reveal_strlit(" kB");
                }
            }
            let t2 = trim_end_matches(&t1, &unit);
            let t3 = trim_chars(&t2, &TrimSet::Whitespace);
            proof {
                let l = views(ls@).skip(i as int);
                assert(l.len() > 0);
                assert(has_prefix(l[0], "VmRSS:"@));
                assert(vm_rss_in(l) == rss_value(l[0].subrange("VmRSS:"@.len() as int, l[0].len() as int)));
                assert(rest@ == l[0].subrange("VmRSS:"@.len() as int, l[0].len() as int));
            }
            let kb = match parse_i64(&t3) {
                Some(x) => x,
                None => 0,
            };
            return kb;
        }
        i += 1;
    }
    0
}

} // verus!
