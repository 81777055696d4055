//! Text logic of the report publisher: URL escaping of page titles, the MIME
//! type of an attachment, the FFmpeg commit a benchmark run belongs to, the
//! `.env` settings, and which run folder is the latest.

use vstd::prelude::*;
use vstd::string::*;
use crate::scan::{
    pieces, split_by, views, chars_equal, strip_suffixes, trim_end_matches, has_suffix,
    lines, split_lines, i64_of, parse_i64, sub_chars, TrimSet, trim, trim_chars,
    first_index_of, first_char_index, replace_char, replace_char_exec, replace_text, replace_text_exec,
};
use crate::text::{chars_of, string_from_chars};
use crate::paths::{file_name, extension, file_name_of, last_dot_index};
use crate::keyed::{labeled_views, with_key, key_ordered, is_stable_key_order, insert_keyed};

verus! {

broadcast use vstd::seq_lib::group_seq_lib_default;

// ---------------------------------------------------------------------------
// URL escaping.

/// The title escaping the Confluence queries use: spaces, colons and slashes
/// percent-encoded, in that order.
pub open spec fn url_encoded(s: Seq<char>) -> Seq<char> {
    replace_char(replace_char(replace_char(s, ' ', "%20"@), ':', "%3A"@), '/', "%2F"@)
}

/// Percent-encodes the spaces, colons and slashes of a page title or file
/// name for a Confluence REST query.
pub fn urlencoded(s: &str) -> (res: String)
    ensures
        res@ == url_encoded(s@),
{
    let cs = chars_of(s);
    let a = replace_char_exec(&cs, ' ', &chars_of("%20"));
    let b = replace_char_exec(&a, ':', &chars_of("%3A"));
    let c = replace_char_exec(&b, '/', &chars_of("%2F"));
    string_from_chars(&c)
}

/// The page title of a video type: its underscores written as spaces.
pub fn video_type_title(video_type: &str) -> (res: String)
    ensures
        res@ == replace_char(video_type@, '_', " "@),
{
    string_from_chars(&replace_char_exec(&chars_of(video_type), '_', &chars_of(" ")))
}

/// Where a published copy of a results directory goes: `/results/`
/// replaced by `/published/` throughout its path.
pub fn published_dir(results_dir: &str) -> (res: String)
    ensures
        res@ == replace_text(results_dir@, "/results/"@, "/published/"@),
{
    proof {
        reveal_strlit("/results/");
    }
    string_from_chars(&replace_text_exec(&chars_of(results_dir), &chars_of("/results/"), &chars_of("/published/")))
}

// ---------------------------------------------------------------------------
// Attachment MIME types.

/// `char::to_ascii_lowercase`.
pub open spec fn ascii_lower(c: char) -> char {
    if 'A' <= c && c <= 'Z' {
        ((c as int) + 32) as char
    } else {
        c
    }
}

/// The MIME type announced for an attachment with the given lower-cased
/// extension.
pub open spec fn mime_of(ext: Option<Seq<char>>) -> Seq<char> {
    match ext {
        Some(e) => if e == "png"@ {
            "image/png"@
        } else if e == "jpg"@ || e == "jpeg"@ {
            "image/jpeg"@
        } else if e == "gif"@ {
            "image/gif"@
        } else if e == "svg"@ {
            "image/svg+xml"@
        } else if e == "webp"@ {
            "image/webp"@
        } else if e == "html"@ || e == "htm"@ {
            "text/html"@
        } else if e == "txt"@ {
            "text/plain"@
        } else if e == "json"@ {
            "application/json"@
        } else if e == "pdf"@ {
            "application/pdf"@
        } else {
            "application/octet-stream"@
        },
        None => "application/octet-stream"@,
    }
}

/// The MIME type of an attachment, from its file name's extension (case
/// insensitive).
pub open spec fn mime_type(filename: Seq<char>) -> Seq<char> {
    match extension(filename) {
        Some(e) => mime_of(Some(e.map_values(|c: char| ascii_lower(c)))),
        None => mime_of(None),
    }
}

fn lower_exec(v: &Vec<char>) -> (res: Vec<char>)
    ensures
        res@ == v@.map_values(|c: char| ascii_lower(c)),
{
    let mut out: Vec<char> = Vec::new();
    let mut i: usize = 0;
    while i < v.len()
        invariant
            i <= v@.len(),
            out@ == v@.take(i as int).map_values(|c: char| ascii_lower(c)),
        decreases v@.len() - i,
    {
        let c = v[i];
        let l = if 'A' <= c && c <= 'Z' { ((c as u32) + 32) as u8 as char } else { c };
        proof {
            if 'A' <= c && c <= 'Z' {
                assert((((c as u32) + 32) as u8) as int == (c as int) + 32);
            }
        }
        out.push(l);
        proof {
            assert(out@ =~= v@.take(i + 1).map_values(|c: char| ascii_lower(c)));
        }
        i += 1;
    }
    proof {
        assert(v@.take(i as int) =~= v@);
    }
    out
}

/// The MIME type to upload an attachment with, chosen by its extension.
pub fn mime_for(filename: &str) -> (res: &'static str)
    ensures
        res@ == mime_type(filename@),
{
    let cs = chars_of(filename);
    let name = match file_name_of(&cs) {
        Some(n) => n,
        None => return "application/octet-stream",
    };
    let n = name.len();
    let i = match last_dot_index(&name) {
        Some(d) => if d == 0 {
            return "application/octet-stream";
        } else {
            d + 1
        },
        None => return "application/octet-stream",
    };
    let ext = lower_exec(&sub_chars(&name, i, n));
    if chars_equal(&ext, &chars_of("png")) {
        "image/png"
    } else if chars_equal(&ext, &chars_of("jpg")) || chars_equal(&ext, &chars_of("jpeg")) {
        "image/jpeg"
    } else if chars_equal(&ext, &chars_of("gif")) {
        "image/gif"
    } else if chars_equal(&ext, &chars_of("svg")) {
        "image/svg+xml"
    } else if chars_equal(&ext, &chars_of("webp")) {
        "image/webp"
    } else if chars_equal(&ext, &chars_of("html")) || chars_equal(&ext, &chars_of("htm")) {
        "text/html"
    } else if chars_equal(&ext, &chars_of("txt")) {
        "text/plain"
    } else if chars_equal(&ext, &chars_of("json")) {
        "application/json"
    } else if chars_equal(&ext, &chars_of("pdf")) {
        "application/pdf"
    } else {
        "application/octet-stream"
    }
}


// ---------------------------------------------------------------------------
// FFmpeg commit history.

/// A commit: its unix timestamp and its hash.


/// Index of the last commit of `cs` made at or before `ts`.
pub open spec fn last_at_or_before(cs: Seq<(i64, Seq<char>)>, ts: i64) -> Option<int>
    decreases cs.len(),
{
    if cs.len() == 0 {
        None
    } else if cs.last().0 <= ts {
        Some(cs.len() - 1)
    } else {
        last_at_or_before(cs.drop_last(), ts)
    }
}

/// The commit a run at `ts` is attributed to: the last one made at or before
/// `ts`, or the first one when the run predates all of them.
pub open spec fn chosen_commit(cs: Seq<(i64, Seq<char>)>, ts: i64) -> Option<int> {
    match last_at_or_before(cs, ts) {
        Some(i) => Some(i),
        None => if cs.len() > 0 { Some(0) } else { None },
    }
}

/// The web URL of the commit a run at `ts` is attributed to.
pub open spec fn commit_url(cs: Seq<(i64, Seq<char>)>, remote: Seq<char>, ts: i64) -> Option<Seq<char>> {
    match chosen_commit(cs, ts) {
        Some(i) => Some(strip_suffixes(remote, ".git"@) + "/commit/"@ + cs[i].1),
        None => None,
    }
}

/// The URL of the commit that was current when a run at `folder_ts` was made
/// (see `chosen_commit`), on the repository at `remote`.
pub fn commit_url_for_timestamp(commits: &[(i64, String)], remote: &str, folder_ts: i64) -> (res: Option<String>)
    ensures
        match res {
            Some(u) => commit_url(labeled_views(commits@), remote@, folder_ts) == Some(u@),
            None => commit_url(labeled_views(commits@), remote@, folder_ts) is None,
        },
{
    let ghost cv = labeled_views(commits@);
    let mut i = commits.len();
    proof {
        assert(cv.take(i as int) =~= cv);
    }
    while i > 0 && commits[i - 1].0 > folder_ts
        invariant
            i <= commits@.len(),
            cv == labeled_views(commits@),
            last_at_or_before(cv, folder_ts) == last_at_or_before(cv.take(i as int), folder_ts),
        decreases i,
    {
        proof {
            assert(cv.take(i as int).drop_last() =~= cv.take(i - 1));
            assert(cv.take(i as int).last().0 == commits@[i - 1].0);
        }
        i -= 1;
    }
    let idx: usize = if i > 0 {
        proof {
            assert(cv.take(i as int).last().0 == commits@[i - 1].0);
        }
        i - 1
    } else if commits.len() > 0 {
        proof {
            assert(cv.take(0) =~= Seq::<(i64, Seq<char>)>::empty());
        }
        0
    } else {
        return None;
    };
    proof {
        assert(".git"@.len() > 0) by {
            reveal_strlit(".git");
        }
    }
    let mut url = string_from_chars(&trim_end_matches(&chars_of(remote), &chars_of(".git")));
    url.append("/commit/");
    url.append(commits[idx].1.as_str());
    proof {
        assert(cv[idx as int].1 == commits@[idx as int].1@);
    }
    Some(url)
}

/// A `git log --pretty=format:'%ct %H'` line: the timestamp before the first
/// space and the hash after it; lines without a space or with an unparsable
/// timestamp hold no commit.
pub open spec fn commit_of_line(l: Seq<char>) -> Option<(i64, Seq<char>)> {
    match first_index_of(l, ' ') {
        Some(p) => match i64_of(l.subrange(0, p)) {
            Some(ts) => Some((ts, l.subrange(p + 1, l.len() as int))),
            None => None,
        },
        None => None,
    }
}

pub open spec fn line_commit() -> spec_fn(Seq<char>) -> Option<(i64, Seq<char>)> {
    |l: Seq<char>| commit_of_line(l)
}

/// The commits of a log, in log order.
pub open spec fn commits_in(log: Seq<char>) -> Seq<(i64, Seq<char>)> {
    lines(log).filter_map(line_commit())
}

/// The commits of a `git log --pretty=format:'%ct %H'` output, ordered by
/// timestamp; commits with equal timestamps keep their log order.
pub fn get_ffmpeg_commit_history(log: &str) -> (res: Vec<(i64, String)>)
    ensures
        is_stable_key_order(labeled_views(res@), commits_in(log@)),
{
    let cs = chars_of(log);
    let ls = split_lines(&cs);
    let ghost lv = views(ls@);
    let mut out: Vec<(i64, String)> = Vec::new();
    let mut i: usize = 0;
    proof {
        assert(lv.take(0) =~= Seq::<Seq<char>>::empty());
        assert forall|t: i64| #[trigger] labeled_views(out@).filter(with_key(t)) == lv.take(0).filter_map(line_commit()).filter(with_key(t)) by {
            reveal(Seq::filter);
            assert(labeled_views(out@) =~= Seq::<(i64, Seq<char>)>::empty());
            assert(lv.take(0).filter_map(line_commit()) =~= Seq::<(i64, Seq<char>)>::empty());
        }
    }
    while i < ls.len()
        invariant
            i <= ls@.len(),
            lv == views(ls@),
            lv == lines(log@),
            key_ordered(labeled_views(out@)),
            forall|t: i64| #[trigger] labeled_views(out@).filter(with_key(t)) == lv.take(i as int).filter_map(line_commit()).filter(with_key(t)),
        decreases ls@.len() - i,
    {
        let l = &ls[i];
        proof {
            lv.lemma_filter_map_take_succ(line_commit(), i as int);
            assert(lv[i as int] == l@);
        }
        let ghost prev = labeled_views(out@);
        match first_char_index(l, ' ') {
            Some(p) => {
                match parse_i64(&sub_chars(l, 0, p)) {
                    Some(ts) => {
                        let n = l.len();
                        let hash = string_from_chars(&sub_chars(l, p + 1, n));
                        insert_keyed(&mut out, ts, hash);
                        proof {
                            assert(commit_of_line(l@) == Some((ts, hash@)));
                            assert forall|t: i64| #[trigger] labeled_views(out@).filter(with_key(t)) == lv.take(i + 1).filter_map(line_commit()).filter(with_key(t)) by {
                                let base = lv.take(i as int).filter_map(line_commit());
                                assert(lv.take(i + 1).filter_map(line_commit()) =~= base.push((ts, hash@)));
                                base.lemma_filter_push((ts, hash@), with_key(t));
                            }
                        }
                    },
                    None => {
                        proof {
                            assert(commit_of_line(l@) is None);
                            assert(lv.take(i + 1).filter_map(line_commit()) =~= lv.take(i as int).filter_map(line_commit()));
                        }
                    },
                }
            },
            None => {
                proof {
                    assert(commit_of_line(l@) is None);
                    assert(lv.take(i + 1).filter_map(line_commit()) =~= lv.take(i as int).filter_map(line_commit()));
                }
            },
        }
        i += 1;
    }
    proof {
        assert(lv.take(i as int) =~= lv);
    }
    out
}


// ---------------------------------------------------------------------------
// `.env` files.

/// The variable a `.env` line sets: `KEY=VALUE` with surrounding whitespace
/// removed and the value stripped of enclosing `"` and then `'` characters.
/// Blank lines, `#` comments, lines without `=` and empty keys set nothing.
pub open spec fn env_entry(line: Seq<char>) -> Option<(Seq<char>, Seq<char>)> {
    let l = trim(line, TrimSet::Whitespace);
    if l.len() == 0 || l[0] == '#' {
        None
    } else {
        match first_index_of(l, '=') {
            Some(p) => {
                let k = trim(l.subrange(0, p), TrimSet::Whitespace);
                let v = trim(
                    trim(trim(l.subrange(p + 1, l.len() as int), TrimSet::Whitespace), TrimSet::Char('"')),
                    TrimSet::Char('\''),
                );
                if k.len() == 0 {
                    None
                } else {
                    Some((k, v))
                }
            },
            None => None,
        }
    }
}

pub open spec fn env_line() -> spec_fn(Seq<char>) -> Option<(Seq<char>, Seq<char>)> {
    |l: Seq<char>| env_entry(l)
}

/// The variables a `.env` file sets, in file order.
pub open spec fn env_entries(content: Seq<char>) -> Seq<(Seq<char>, Seq<char>)> {
    lines(content).filter_map(env_line())
}

pub open spec fn pair_views(v: Seq<(String, String)>) -> Seq<(Seq<char>, Seq<char>)> {
    v.map_values(|p: (String, String)| (p.0@, p.1@))
}

fn parse_env_line(line: &Vec<char>) -> (res: Option<(String, String)>)
    ensures
        match res {
            Some(p) => env_entry(line@) == Some((p.0@, p.1@)),
            None => env_entry(line@) is None,
        },
{
    let l = trim_chars(line, &TrimSet::Whitespace);
    if l.len() == 0 || l[0] == '#' {
        return None;
    }
    match first_char_index(&l, '=') {
        Some(p) => {
            let k = trim_chars(&sub_chars(&l, 0, p), &TrimSet::Whitespace);
            let v0 = trim_chars(&sub_chars(&l, p + 1, l.len()), &TrimSet::Whitespace);
            let v1 = trim_chars(&v0, &TrimSet::Char('"'));
            let v2 = trim_chars(&v1, &TrimSet::Char('\''));
            if k.len() == 0 {
                None
            } else {
                Some((string_from_chars(&k), string_from_chars(&v2)))
            }
        },
        None => None,
    }
}

/// The `KEY=VALUE` assignments of the text of a `.env` file, in file order.
pub fn parse_env_file(content: &str) -> (res: Vec<(String, String)>)
    ensures
        pair_views(res@) == env_entries(content@),
{
    let ls = split_lines(&chars_of(content));
    let ghost lv = views(ls@);
    let mut out: Vec<(String, String)> = Vec::new();
    let mut i: usize = 0;
    proof {
        assert(lv.take(0) =~= Seq::<Seq<char>>::empty());
        assert(pair_views(out@) =~= lv.take(0).filter_map(env_line()));
    }
    while i < ls.len()
        invariant
            i <= ls@.len(),
            lv == views(ls@),
            lv == lines(content@),
            pair_views(out@) == lv.take(i as int).filter_map(env_line()),
        decreases ls@.len() - i,
    {
        proof {
            lv.lemma_filter_map_take_succ(env_line(), i as int);
            assert(lv[i as int] == ls@[i as int]@);
        }
        let ghost before = out@;
        match parse_env_line(&ls[i]) {
            Some(p) => {
                out.push(p);
                proof {
                    assert(pair_views(out@) =~= pair_views(before).push((out@.last().0@, out@.last().1@)));
                }
            },
            None => {},
        }
        proof {
            assert(pair_views(out@) =~= lv.take(i + 1).filter_map(env_line()));
        }
        i += 1;
    }
    proof {
        assert(lv.take(i as int) =~= lv);
    }
    out
}


// ---------------------------------------------------------------------------
// The latest run folder.

/// Lexicographic order of texts by character code, a proper prefix first:
/// the order of file names that a sort of paths in one directory follows.
pub open spec fn text_lt(a: Seq<char>, b: Seq<char>) -> bool
    decreases a.len(),
{
    if a.len() == 0 {
        b.len() > 0
    } else if b.len() == 0 {
        false
    } else if a[0] != b[0] {
        a[0] < b[0]
    } else {
        text_lt(a.drop_first(), b.drop_first())
    }
}

proof fn lemma_text_total(a: Seq<char>, b: Seq<char>)
    ensures
        !text_lt(a, a),
        text_lt(a, b) ==> !text_lt(b, a),
        text_lt(a, b) || text_lt(b, a) || a == b,
    decreases a.len(),
{
    if a.len() > 0 && b.len() > 0 && a[0] == b[0] {
        lemma_text_total(a.drop_first(), b.drop_first());
        if a.drop_first() == b.drop_first() {
            assert(a =~= seq![a[0]] + a.drop_first());
            assert(b =~= seq![b[0]] + b.drop_first());
        }
    } else if a.len() > 0 {
        lemma_text_total(a.drop_first(), a.drop_first());
    } else if b.len() == 0 {
        assert(a =~= b);
    }
}

proof fn lemma_text_trans(a: Seq<char>, b: Seq<char>, c: Seq<char>)
    requires
        text_lt(a, b),
        text_lt(b, c),
    ensures
        text_lt(a, c),
    decreases a.len(),
{
    if a.len() > 0 && b.len() > 0 && c.len() > 0 && a[0] == b[0] && b[0] == c[0] {
        lemma_text_trans(a.drop_first(), b.drop_first(), c.drop_first());
    }
}

fn text_less(a: &Vec<char>, b: &Vec<char>) -> (res: bool)
    ensures
        res == text_lt(a@, b@),
{
    let mut i: usize = 0;
    proof {
        assert(a@.skip(0) =~= a@);
        assert(b@.skip(0) =~= b@);
    }
    while i < a.len() && i < b.len() && a[i] == b[i]
        invariant
            i <= a@.len(),
            i <= b@.len(),
            text_lt(a@, b@) == text_lt(a@.skip(i as int), b@.skip(i as int)),
        decreases a@.len() - i,
    {
        proof {
            assert(a@.skip(i as int).drop_first() =~= a@.skip(i + 1));
            assert(b@.skip(i as int).drop_first() =~= b@.skip(i + 1));
        }
        i += 1;
    }
    proof {
        if i < a@.len() {
            assert(a@.skip(i as int)[0] == a@[i as int]);
        }
        if i < b@.len() {
            assert(b@.skip(i as int)[0] == b@[i as int]);
        }
    }
    if i == a.len() {
        i < b.len()
    } else if i == b.len() {
        false
    } else {
        a[i] < b[i]
    }
}

/// The position of the name a sort of the names puts last: a greatest name,
/// the later one in the list among equal names; `None` for no names.
pub fn last_in_order(names: &Vec<String>) -> (res: Option<usize>)
    ensures
        res is None <==> names@.len() == 0,
        res matches Some(i) ==> {
            &&& i < names@.len()
            &&& forall|j: int| 0 <= j < i ==> !text_lt(names@[i as int]@, #[trigger] names@[j]@)
            &&& forall|j: int| i < j < names@.len() ==> text_lt(#[trigger] names@[j]@, names@[i as int]@)
        },
{
    if names.len() == 0 {
        return None;
    }
    let mut best: usize = 0;
    let mut best_chars = chars_of(names[0].as_str());
    let mut k: usize = 1;
    while k < names.len()
        invariant
            1 <= k <= names@.len(),
            best < k,
            best_chars@ == names@[best as int]@,
            forall|j: int| 0 <= j < best ==> !text_lt(names@[best as int]@, #[trigger] names@[j]@),
            forall|j: int| best < j < k ==> text_lt(#[trigger] names@[j]@, names@[best as int]@),
        decreases names@.len() - k,
    {
        let cs = chars_of(names[k].as_str());
        if !text_less(&cs, &best_chars) {
            proof {
                let nb = names@[best as int]@;
                let nk = names@[k as int]@;
                assert forall|j: int| 0 <= j < k implies !text_lt(nk, #[trigger] names@[j]@) by {
                    let nj = names@[j]@;
                    lemma_text_total(nk, nb);
                    lemma_text_total(nk, nj);
                    lemma_text_total(nj, nb);
                    if text_lt(nk, nj) {
                        if j < best {
                            if text_lt(nj, nb) {
                                lemma_text_trans(nk, nj, nb);
                            }
                        } else if j > best {
                            lemma_text_trans(nk, nj, nb);
                        }
                    }
                }
            }
            best = k;
            best_chars = cs;
        }
        k += 1;
    }
    Some(best)
}

} // verus!
