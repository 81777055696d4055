//! The Confluence REST requests the publisher makes: their URLs and JSON
//! bodies, and how the answers are read. Sending them is left to the caller.

use vstd::prelude::*;
use vstd::string::*;
use crate::text::{decimal_text, int_text, chars_of, string_from_chars, hex_digit};
use crate::scan::{strip_suffixes, trim_end_matches, TrimSet, trim, trim_chars};
use crate::publish::{url_encoded, urlencoded};

verus! {

/// How `serde_json` writes a character inside a string: quote, backslash
/// and control characters escaped, everything else as is.
pub open spec fn json_escape(c: char) -> Seq<char> {
    let x = c as int;
    if c == '"' {
        "\\\""@
    } else if c == '\\' {
        "\\\\"@
    } else if x == 8 {
        "\\b"@
    } else if x == 9 {
        "\\t"@
    } else if x == 10 {
        "\\n"@
    } else if x == 12 {
        "\\f"@
    } else if x == 13 {
        "\\r"@
    } else if x < 32 {
        "\\u00"@ + seq![hex_digit(x / 16), hex_digit(x % 16)]
    } else {
        seq![c]
    }
}

/// A string as a JSON string literal.
pub open spec fn json_quote(s: Seq<char>) -> Seq<char> {
    seq!['"'] + s.map_values(|c: char| json_escape(c)).flatten() + seq!['"']
}

/// `s` written as a JSON string.
///
/// Trusted: calls `serde_json::to_string` on a `str`, which writes `"`,
/// then each character escaped as `format_escaped_str_contents` does (quote,
/// backslash, `\b \t \n \f \r`, other control characters as `\u00XX` in
/// lower-case hexadecimal), then `"`. Serializing a `str` into memory does
/// not fail.
#[verifier::external_body]
fn json_string(s: &str) -> (res: String)
    ensures
        res@ == json_quote(s@),
{
    serde_json::to_string(s).unwrap_or_default()
}

/// The JSON body that creates a page (keys in the order `serde_json` writes
/// them).
pub open spec fn create_page_json(space_key: Seq<char>, title: Seq<char>, body: Seq<char>, parent_id: Seq<char>) -> Seq<char> {
    "{\"ancestors\":[{\"id\":"@ + json_quote(parent_id) + "}],\"body\":{\"storage\":{\"representation\":\"storage\",\"value\":"@
        + json_quote(body) + "}},\"space\":{\"key\":"@ + json_quote(space_key) + "},\"title\":"@ + json_quote(title)
        + ",\"type\":\"page\"}"@
}

/// The JSON body that replaces a page's content, full-width, as version
/// `version`.
pub open spec fn update_page_json(
    page_id: Seq<char>,
    space_key: Seq<char>,
    title: Seq<char>,
    body: Seq<char>,
    version: i64,
) -> Seq<char> {
    "{\"body\":{\"storage\":{\"representation\":\"storage\",\"value\":"@ + json_quote(body) + "}},\"id\":"@
        + json_quote(page_id)
        + ",\"metadata\":{\"properties\":{\"content-appearance-draft\":{\"value\":\"full-width\"},\"content-appearance-published\":{\"value\":\"full-width\"}}},\"space\":{\"key\":"@
        + json_quote(space_key) + "},\"title\":"@ + json_quote(title) + ",\"type\":\"page\",\"version\":{\"number\":"@
        + int_text(version as int) + "}}"@
}

/// A Confluence server and the account the requests are made with.
pub struct ConfluenceClient {
    pub base_url: String,
    pub username: String,
    pub api_token: String,
}

impl ConfluenceClient {
    /// A client for the server at `base_url`, trailing slashes removed.
    pub fn new(base_url: &str, username: &str, api_token: &str) -> (c: ConfluenceClient)
        ensures
            c.base_url@ == strip_suffixes(base_url@, "/"@),
            c.username@ == username@,
            c.api_token@ == api_token@,
    {
        proof {
            reveal_strlit("/");
        }
        let b = trim_end_matches(&chars_of(base_url), &chars_of("/"));
        ConfluenceClient {
            base_url: string_from_chars(&b),
            username: username.to_owned(),
            api_token: api_token.to_owned(),
        }
    }

    /// `<base>/rest/api/content`, where pages are created.
    pub fn content_url(&self) -> (res: String)
        ensures
            res@ == self.base_url@ + "/rest/api/content"@,
    {
        let mut s = self.base_url.clone();
        s.append("/rest/api/content");
        s
    }

    /// `<base>/rest/api/content/<page_id>`, where a page is replaced.
    pub fn page_url(&self, page_id: &str) -> (res: String)
        ensures
            res@ == self.base_url@ + "/rest/api/content/"@ + page_id@,
    {
        let mut s = self.content_url();
        s.append("/");
        s.append(page_id);
        proof {
            reveal_strlit("/rest/api/content");
            reveal_strlit("/rest/api/content/");
            reveal_strlit("/");
            assert(s@ =~= self.base_url@ + "/rest/api/content/"@ + page_id@);
        }
        s
    }

    /// The query for the page with a title in a space, with its version.
    pub fn page_by_title_url(&self, space_key: &str, title: &str) -> (res: String)
        ensures
            res@ == self.base_url@ + "/rest/api/content?spaceKey="@ + space_key@ + "&title="@ + url_encoded(title@)
                + "&expand=version"@,
    {
        let mut s = self.base_url.clone();
        s.append("/rest/api/content?spaceKey=");
        s.append(space_key);
        s.append("&title=");
        s.append(urlencoded(title).as_str());
        s.append("&expand=version");
        proof {
            assert(s@ =~= self.base_url@ + "/rest/api/content?spaceKey="@ + space_key@ + "&title="@
                + url_encoded(title@) + "&expand=version"@);
        }
        s
    }

    /// The query for a page by id, with its version.
    pub fn page_by_id_url(&self, page_id: &str) -> (res: String)
        ensures
            res@ == self.base_url@ + "/rest/api/content/"@ + page_id@ + "?expand=version"@,
    {
        let mut s = self.page_url(page_id);
        s.append("?expand=version");
        proof {
            assert(s@ =~= self.base_url@ + "/rest/api/content/"@ + page_id@ + "?expand=version"@);
        }
        s
    }

    /// The query for the child pages of a page (up to 200).
    pub fn child_pages_url(&self, page_id: &str) -> (res: String)
        ensures
            res@ == self.base_url@ + "/rest/api/content/"@ + page_id@ + "/child/page?limit=200"@,
    {
        let mut s = self.page_url(page_id);
        s.append("/child/page?limit=200");
        proof {
            assert(s@ =~= self.base_url@ + "/rest/api/content/"@ + page_id@ + "/child/page?limit=200"@);
        }
        s
    }

    /// The query for the attachment of a page with a file name.
    pub fn attachment_query_url(&self, page_id: &str, filename: &str) -> (res: String)
        ensures
            res@ == self.base_url@ + "/rest/api/content/"@ + page_id@ + "/child/attachment?filename="@
                + url_encoded(filename@),
    {
        let mut s = self.page_url(page_id);
        s.append("/child/attachment?filename=");
        s.append(urlencoded(filename).as_str());
        proof {
            assert(s@ =~= self.base_url@ + "/rest/api/content/"@ + page_id@ + "/child/attachment?filename="@
                + url_encoded(filename@));
        }
        s
    }

    /// Where a file is uploaded: over the data of the existing attachment of
    /// that name, or as a new attachment of the page.
    pub fn attachment_upload_url(&self, page_id: &str, existing_id: Option<&str>) -> (res: String)
        ensures
            res@ == match existing_id {
                Some(id) => self.base_url@ + "/rest/api/content/"@ + page_id@ + "/child/attachment/"@ + id@ + "/data"@,
                None => self.base_url@ + "/rest/api/content/"@ + page_id@ + "/child/attachment"@,
            },
    {
        let mut s = self.page_url(page_id);
        s.append("/child/attachment");
        match existing_id {
            Some(id) => {
                s.append("/");
                s.append(id);
                s.append("/data");
                proof {
                    reveal_strlit("/child/attachment");
                    reveal_strlit("/child/attachment/");
                    reveal_strlit("/");
                    assert(s@ =~= self.base_url@ + "/rest/api/content/"@ + page_id@ + "/child/attachment/"@ + id@
                        + "/data"@);
                }
            },
            None => {
                proof {
                    assert(s@ =~= self.base_url@ + "/rest/api/content/"@ + page_id@ + "/child/attachment"@);
                }
            },
        }
        s
    }

    /// Where an attachment is downloaded from, given its download link.
    pub fn download_url(&self, link: &str) -> (res: String)
        ensures
            res@ == self.base_url@ + link@,
    {
        let mut s = self.base_url.clone();
        s.append(link);
        s
    }
}

/// The version a page update is made as: one after the page's current
/// version, taken as 0 when the page shows none.
pub fn next_version(current: Option<i64>) -> (v: i64)
    requires
        current != Some(i64::MAX),
    ensures
        v == match current {
            Some(n) => n + 1,
            None => 1,
        },
{
    match current {
        Some(n) => n + 1,
        None => 1,
    }
}

/// The text of an attachment: none when the attachment is empty or its
/// downloaded text is only whitespace, else the text trimmed.
pub fn attachment_text(size: i64, text: &str) -> (res: Option<String>)
    ensures
        match res {
            Some(t) => size != 0 && t@ == trim(text@, TrimSet::Whitespace) && t@.len() > 0,
            None => size == 0 || trim(text@, TrimSet::Whitespace).len() == 0,
        },
{
    if size == 0 {
        return None;
    }
    let t = trim_chars(&chars_of(text), &TrimSet::Whitespace);
    if t.len() == 0 {
        None
    } else {
        Some(string_from_chars(&t))
    }
}

/// The comment an upload is made with.
pub fn upload_comment(attachment_name: &str) -> (res: String)
    ensures
        res@ == "Uploaded "@ + attachment_name@ + "."@,
{
    let mut s = "Uploaded ".to_owned();
    s.append(attachment_name);
    s.append(".");
    proof {
        assert(s@ =~= "Uploaded "@ + attachment_name@ + "."@);
    }
    s
}

/// The JSON body that creates a page under `parent_id`.
pub fn create_page_payload(space_key: &str, title: &str, body: &str, parent_id: &str) -> (res: String)
    ensures
        res@ == create_page_json(space_key@, title@, body@, parent_id@),
{
    let mut s = "{\"ancestors\":[{\"id\":".to_owned();
    s.append(json_string(parent_id).as_str());
    s.append("}],\"body\":{\"storage\":{\"representation\":\"storage\",\"value\":");
    s.append(json_string(body).as_str());
    s.append("}},\"space\":{\"key\":");
    s.append(json_string(space_key).as_str());
    s.append("},\"title\":");
    s.append(json_string(title).as_str());
    s.append(",\"type\":\"page\"}");
    proof {
        assert(s@ =~= create_page_json(space_key@, title@, body@, parent_id@));
    }
    s
}

/// The JSON body that replaces a page's content as version `version`.
pub fn update_page_payload(page_id: &str, space_key: &str, title: &str, body: &str, version: i64) -> (res: String)
    ensures
        res@ == update_page_json(page_id@, space_key@, title@, body@, version),
{
    let mut s = "{\"body\":{\"storage\":{\"representation\":\"storage\",\"value\":".to_owned();
    s.append(json_string(body).as_str());
    s.append("}},\"id\":");
    s.append(json_string(page_id).as_str());
    s.append(",\"metadata\":{\"properties\":{\"content-appearance-draft\":{\"value\":\"full-width\"},\"content-appearance-published\":{\"value\":\"full-width\"}}},\"space\":{\"key\":");
    s.append(json_string(space_key).as_str());
    s.append("},\"title\":");
    s.append(json_string(title).as_str());
    s.append(",\"type\":\"page\",\"version\":{\"number\":");
    s.append(decimal_text(version as i128).as_str());
    s.append("}}");
    proof {
        assert(s@ =~= update_page_json(page_id@, space_key@, title@, body@, version));
    }
    s
}


/// A page as Confluence lists it: its title and its id, where they are
/// text.
pub open spec fn page_view(p: (Option<String>, Option<String>)) -> (Option<Seq<char>>, Option<Seq<char>>) {
    (
        match p.0 {
            Some(t) => Some(t@),
            None => None,
        },
        match p.1 {
            Some(t) => Some(t@),
            None => None,
        },
    )
}

pub open spec fn pages_view(v: Seq<(Option<String>, Option<String>)>) -> Seq<(Option<Seq<char>>, Option<Seq<char>>)> {
    v.map_values(|p: (Option<String>, Option<String>)| page_view(p))
}

/// The position of the first page titled `title` at or after `i`.
pub open spec fn titled_index(pages: Seq<(Option<Seq<char>>, Option<Seq<char>>)>, title: Seq<char>, i: int) -> Option<int>
    decreases pages.len() - i,
{
    if i < 0 || i >= pages.len() {
        None
    } else if pages[i].0 == Some(title) {
        Some(i)
    } else {
        titled_index(pages, title, i + 1)
    }
}

/// The first of the child pages titled `title`, by its id (which may be
/// missing); `None` when no child has that title.
pub fn find_child_page(children: &Vec<(Option<String>, Option<String>)>, title: &str) -> (res: Option<Option<String>>)
    ensures
        match titled_index(pages_view(children@), title@, 0) {
            None => res is None,
            Some(i) => res is Some && match res->0 {
                Some(id) => pages_view(children@)[i].1 == Some(id@),
                None => pages_view(children@)[i].1 is None,
            },
        },
{
    let ghost pv = pages_view(children@);
    let mut i: usize = 0;
    while i < children.len()
        invariant
            i <= children@.len(),
            pv == pages_view(children@),
            titled_index(pv, title@, 0) == titled_index(pv, title@, i as int),
        decreases children@.len() - i,
    {
        proof {
            assert(pv[i as int] == page_view(children@[i as int]));
        }
        let matches = match &children[i].0 {
            Some(t) => string_equal(t.as_str(), title),
            None => false,
        };
        if matches {
            return Some(
                match &children[i].1 {
                    Some(id) => Some(id.clone()),
                    None => None,
                },
            );
        }
        i += 1;
    }
    None
}

fn string_equal(a: &str, b: &str) -> (res: bool)
    ensures
        res == (a@ == b@),
{
    let x = chars_of(a);
    let y = chars_of(b);
    crate::scan::chars_equal(&x, &y)
}

} // verus!
