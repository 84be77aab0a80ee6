//! Capturing notes and links: telling URLs apart and finding a page title.

use vstd::prelude::*;
use crate::text::{
    contains, find, find_spec, has_prefix, lower_of, occurs_at, owned, pieces, split_char,
    starts_with, take_chars, to_lowercase, trim, trim_spec, views,
};

verus! {

/// An `http://` or `https://` address (after trimming).
pub open spec fn web_address(s: Seq<char>) -> bool {
    has_prefix(trim_spec(s), "http://"@) || has_prefix(trim_spec(s), "https://"@)
}

pub fn is_url(s: &str) -> (r: bool)
    ensures
        r == web_address(s@),
{
    let t = trim(s);
    starts_with(t, "http://") || starts_with(t, "https://")
}

/// The `<title>` of a page: located in the lower-cased text, taken from the
/// page text as given, at the same char positions, trimmed; nothing when absent or
/// blank.
pub open spec fn title_of(html: Seq<char>) -> Option<Seq<char>> {
    let lower = lower_of(html);
    match find_spec(lower, "<title>"@) {
        Some(i) => {
            let start = i + 7;
            match find_spec(lower.skip(start), "</title>"@) {
                Some(j) => {
                    let end = start + j;
                    if end <= html.len() {
                        let t = trim_spec(html.subrange(start, end));
                        if t.len() > 0 {
                            Some(t)
                        } else {
                            None
                        }
                    } else {
                        None
                    }
                },
                None => None,
            }
        },
        None => None,
    }
}

pub fn extract_title(html: &str) -> (r: Option<String>)
    ensures
        match r {
            Some(t) => title_of(html@) == Some(t@),
            None => title_of(html@) is None,
        },
{
    proof {
        reveal_strlit("<title>");
        reveal_strlit("</title>");
    }
    let lower = to_lowercase(html);
    let lw = lower.as_str();
    let ln = lw.unicode_len();
    let i = match find(lw, "<title>") {
        Some(i) => i,
        None => {
            return None;
        },
    };
    let start = i + 7;
    let tail = lw.substring_char(start, ln);
    assert(tail@ =~= lower@.skip(start as int));
    let j = match find(tail, "</title>") {
        Some(j) => j,
        None => {
            return None;
        },
    };
    let end = start + j;
    if end > html.unicode_len() {
        return None;
    }
    let t = trim(html.substring_char(start, end));
    if t.unicode_len() == 0 {
        None
    } else {
        Some(owned(t))
    }
}

/// The `content="…"` value of a line, trimmed, if the line has one and it
/// is not blank.
pub open spec fn content_value(line: Seq<char>) -> Option<Seq<char>> {
    match find_spec(line, "content=\""@) {
        Some(start) => {
            let rest = line.skip(start + 9);
            match find_spec(rest, "\""@) {
                Some(end) => {
                    let t = trim_spec(rest.take(end));
                    if t.len() > 0 {
                        Some(t)
                    } else {
                        None
                    }
                },
                None => None,
            }
        },
        None => None,
    }
}

/// The first `og:title` line (matched case-insensitively) of `lines` that
/// carries a non-blank `content` value, and that value.
pub open spec fn og_title_in(lines: Seq<Seq<char>>) -> Option<Seq<char>>
    decreases lines.len(),
{
    if lines.len() == 0 {
        None
    } else if og_line(lines[0]) is Some {
        og_line(lines[0])
    } else {
        og_title_in(lines.drop_first())
    }
}

/// The `content` value of a line mentioning `og:title` (in any case).
pub open spec fn og_line(line: Seq<char>) -> Option<Seq<char>> {
    if find_spec(lower_of(line), "og:title"@) is Some {
        content_value(line)
    } else {
        None
    }
}

fn og_line_value(line: &str) -> (r: Option<String>)
    ensures
        match r {
            Some(t) => og_line(line@) == Some(t@),
            None => og_line(line@) is None,
        },
{
    proof {
        reveal_strlit("og:title");
    }
    let lower = to_lowercase(line);
    if contains(lower.as_str(), "og:title") {
        line_content(line)
    } else {
        None
    }
}

fn line_content(line: &str) -> (r: Option<String>)
    ensures
        match r {
            Some(t) => content_value(line@) == Some(t@),
            None => content_value(line@) is None,
        },
{
    proof {
        reveal_strlit("content=\"");
        reveal_strlit("\"");
    }
    let n = line.unicode_len();
    let start = match find(line, "content=\"") {
        Some(s) => s,
        None => {
            return None;
        },
    };
    let rest = line.substring_char(start + 9, n);
    assert(rest@ =~= line@.skip(start + 9));
    let end = match find(rest, "\"") {
        Some(e) => e,
        None => {
            return None;
        },
    };
    let t = trim(rest.substring_char(0, end));
    assert(rest@.take(end as int) =~= rest@.subrange(0, end as int));
    if t.unicode_len() == 0 {
        None
    } else {
        Some(owned(t))
    }
}

/// The `og:title` meta value of a page, read line by line (line breaks at
/// `\n`; a `\r` before one cannot change the outcome, as the value ends at a
/// quote and is trimmed).
pub fn extract_og_title(html: &str) -> (r: Option<String>)
    ensures
        match r {
            Some(t) => og_title_in(pieces(html@, '\n')) == Some(t@),
            None => og_title_in(pieces(html@, '\n')) is None,
        },
{
    let lines = split_char(html, '\n');
    let ghost ls = views(lines@);
    let mut i: usize = 0;
    assert(ls.skip(0) =~= ls);
    while i < lines.len()
        invariant
            i <= lines@.len(),
            ls == views(lines@),
            ls == pieces(html@, '\n'),
            og_title_in(ls) == og_title_in(ls.skip(i as int)),
        decreases lines@.len() - i,
    {
        let line = lines[i].as_str();
        proof {
            assert(ls.skip(i as int)[0] == line@);
            assert(ls.skip(i as int).drop_first() =~= ls.skip(i + 1));
        }
        match og_line_value(line) {
            Some(t) => {
                return Some(t);
            },
            None => {},
        }
        i = i + 1;
    }
    proof {
        assert(ls.skip(i as int).len() == 0);
    }
    None
}

/// The first line of `text` as `str::lines` reads it (a `\r` before the
/// line break dropped), or nothing for empty text.
pub open spec fn first_line(text: Seq<char>) -> Option<Seq<char>> {
    if text.len() == 0 {
        None
    } else {
        match find_spec(text, "\n"@) {
            Some(i) => {
                let p = text.take(i);
                if p.len() > 0 && p.last() == '\r' {
                    Some(p.drop_last())
                } else {
                    Some(p)
                }
            },
            None => Some(text),
        }
    }
}

/// The title of a captured note: the first 80 chars of its first line, or
/// `Untitled` for empty text.
pub open spec fn note_title_of(text: Seq<char>) -> Seq<char> {
    let l = match first_line(text) {
        Some(l) => l,
        None => "Untitled"@,
    };
    if l.len() <= 80 {
        l
    } else {
        l.take(80)
    }
}

pub fn note_title(text: &str) -> (r: String)
    ensures
        r@ == note_title_of(text@),
{
    proof {
        reveal_strlit("\n");
        reveal_strlit("Untitled");
    }
    let line: &str = if text.unicode_len() == 0 {
        "Untitled"
    } else {
        match find(text, "\n") {
            Some(i) => {
                let p = text.substring_char(0, i);
                assert(p@ =~= text@.take(i as int));
                let m = p.unicode_len();
                if m > 0 && p.get_char(m - 1) == '\r' {
                    let q = p.substring_char(0, m - 1);
                    assert(q@ =~= p@.drop_last());
                    q
                } else {
                    p
                }
            },
            None => text,
        }
    };
    take_chars(line, 80)
}

/// Every text the capture command takes for a link (`http://` or
/// `https://` after trimming) the store takes for a link too; the store also
/// accepts `www.` and any `scheme://`.
pub proof fn lemma_web_address_is_link(s: Seq<char>)
    ensures
        web_address(s) ==> crate::db::looks_like_url(s),
{
}

} // verus!
