//! Sara's private store of captured notes and links: file names, paths and
//! the frontmatter that heads each markdown file.

use vstd::prelude::*;
use crate::dates::{utc_now, UtcTime};
use crate::text::{
    ascii_lower, concat2, fmt_i64, int_to_decimal, is_ascii_alnum, owned, push_char, str_eq,
    strip_prefix, strip_prefix_spec, trim, trim_spec, find, find_spec, occurs_at,
};

verus! {

/// A fresh random (version 4) UUID in its hyphenated text form, which the
/// `uuid` crate documents as 36 characters long.
#[verifier::external_body]
pub(crate) fn new_uuid() -> (r: String)
    ensures
        r@.len() == 36,
{
    uuid::Uuid::new_v4().to_string()
}

// ── slugs ─────────────────────────────────────────────────────────────────

/// The slug built from `s` char by char: ASCII letters and digits kept
/// (lower-cased), every run of other chars after the first kept char
/// collapsed to one `-`. The flag says whether the slug ends in such a dash.
pub open spec fn slug_build(s: Seq<char>) -> (Seq<char>, bool)
    decreases s.len(),
{
    if s.len() == 0 {
        (Seq::empty(), false)
    } else {
        let (slug, dash) = slug_build(s.drop_last());
        let c = s.last();
        if is_ascii_alnum(c) {
            (slug.push(ascii_lower(c)), false)
        } else if !dash && slug.len() > 0 {
            (slug.push('-'), true)
        } else {
            (slug, dash)
        }
    }
}

/// `s` without leading and trailing `-` chars.
pub open spec fn trim_dashes_end(s: Seq<char>) -> Seq<char>
    decreases s.len(),
{
    if s.len() > 0 && s.last() == '-' {
        trim_dashes_end(s.drop_last())
    } else {
        s
    }
}

pub open spec fn trim_dashes_start(s: Seq<char>) -> Seq<char>
    decreases s.len(),
{
    if s.len() > 0 && s[0] == '-' {
        trim_dashes_start(s.drop_first())
    } else {
        s
    }
}

/// A file-name-safe slug of a title: its first 80 chars slugged, dashes
/// trimmed from both ends, `untitled` when nothing is left.
pub open spec fn slug_of(title: Seq<char>) -> Seq<char> {
    let first = if title.len() <= 80 {
        title
    } else {
        title.take(80)
    };
    let s = trim_dashes_end(trim_dashes_start(slug_build(first).0));
    if s.len() == 0 {
        "untitled"@
    } else {
        s
    }
}

fn trim_dashes(s: &str) -> (r: String)
    ensures
        r@ == trim_dashes_end(trim_dashes_start(s@)),
{
    let n = s.unicode_len();
    let mut i: usize = 0;
    assert(s@.skip(0) =~= s@);
    while i < n && s.get_char(i) == '-'
        invariant
            n == s@.len(),
            i <= n,
            trim_dashes_start(s@) == trim_dashes_start(s@.skip(i as int)),
        decreases n - i,
    {
        assert(s@.skip(i as int).drop_first() =~= s@.skip(i + 1));
        i = i + 1;
    }
    let mut j: usize = n;
    assert(s@.skip(i as int) =~= s@.subrange(i as int, n as int));
    while j > i && s.get_char(j - 1) == '-'
        invariant
            n == s@.len(),
            i <= j <= n,
            trim_dashes_start(s@) == s@.subrange(i as int, n as int),
            trim_dashes_end(s@.subrange(i as int, n as int)) == trim_dashes_end(
                s@.subrange(i as int, j as int),
            ),
        decreases j,
    {
        assert(s@.subrange(i as int, j as int).drop_last() =~= s@.subrange(i as int, j - 1));
        j = j - 1;
    }
    proof {
        if i < n {
            assert(s@.skip(i as int)[0] == s@[i as int]);
        }
        let t = s@.subrange(i as int, j as int);
        if j > i {
            assert(t.last() == s@[j - 1]);
        }
    }
    owned(s.substring_char(i, j))
}

pub fn slugify(title: &str) -> (r: String)
    ensures
        r@ == slug_of(title@),
{
    proof {
        reveal_strlit("untitled");
    }
    let n = title.unicode_len();
    let limit = if n <= 80 {
        n
    } else {
        80
    };
    let ghost first = if title@.len() <= 80 {
        title@
    } else {
        title@.take(80)
    };
    let mut slug = String::new();
    let mut prev_dash = false;
    let mut i: usize = 0;
    assert(first.take(0) =~= Seq::<char>::empty());
    while i < limit
        invariant
            limit == first.len(),
            n == title@.len(),
            first == (if title@.len() <= 80 {
                title@
            } else {
                title@.take(80)
            }),
            i <= limit,
            (slug@, prev_dash) == slug_build(first.take(i as int)),
        decreases limit - i,
    {
        let c = title.get_char(i);
        proof {
            assert(first[i as int] == c);
            assert(first.take(i + 1).drop_last() =~= first.take(i as int));
            assert(first.take(i + 1).last() == c);
        }
        if ('0' <= c && c <= '9') || ('a' <= c && c <= 'z') || ('A' <= c && c <= 'Z') {
            let lc = crate::text::to_ascii_lower(c);
            push_char(&mut slug, lc);
            prev_dash = false;
        } else if !prev_dash && slug.unicode_len() > 0 {
            push_char(&mut slug, '-');
            prev_dash = true;
        }
        i = i + 1;
    }
    assert(first.take(limit as int) =~= first);
    let trimmed = trim_dashes(slug.as_str());
    if trimmed.unicode_len() == 0 {
        owned("untitled")
    } else {
        trimmed
    }
}

// ── items ─────────────────────────────────────────────────────────────────

/// A captured note or link (indexed in the database, body in markdown).
#[derive(Clone, Debug)]
pub struct Item {
    pub uuid: String,
    /// Small display id within its kind (`n1`, `l2` in the CLI).
    pub display_id: Option<i64>,
    pub kind: String,
    pub title: String,
    pub url: Option<String>,
    pub project: Option<String>,
    pub tags: Vec<String>,
    /// Path relative to the store.
    pub path: Option<String>,
    pub summary: Option<String>,
    pub body: String,
    pub created: UtcTime,
    pub modified: UtcTime,
    pub status: String,
}

/// `l` for links, `n` for everything else, then the display id (0 when
/// there is none).
pub open spec fn handle_text(kind: Seq<char>, display_id: Option<i64>) -> Seq<char> {
    (if kind == "link"@ {
        "l"@
    } else {
        "n"@
    }) + int_to_decimal(
        match display_id {
            Some(d) => d as int,
            None => 0,
        },
    )
}

/// `{slug}-{first 8 chars of the uuid}.md`.
pub open spec fn filename_of(title: Seq<char>, uuid: Seq<char>) -> Seq<char> {
    slug_of(title) + "-"@ + uuid.take(8) + ".md"@
}

/// Where an item lives in the store: links under `3 Resources/links`,
/// everything else under `3 Resources/notes`.
pub open spec fn relative_path_of(kind: Seq<char>, title: Seq<char>, uuid: Seq<char>) -> Seq<char> {
    (if kind == "link"@ {
        "3 Resources/links"@
    } else {
        "3 Resources/notes"@
    }) + "/"@ + filename_of(title, uuid)
}

impl Item {
    /// A new active note captured now.
    pub fn new_note(title: String, body: String) -> (r: Item)
        ensures
            r.title@ == title@,
            r.body@ == body@,
            r.kind@ == "note"@,
            r.status@ == "active"@,
            r.url is None && r.project is None && r.path is None && r.summary is None,
            r.display_id is None,
            r.tags@.len() == 0,
            r.uuid@.len() == 36,
            r.created == r.modified,
    {
        let now = utc_now();
        Item {
            uuid: new_uuid(),
            display_id: None,
            kind: owned("note"),
            title,
            url: None,
            project: None,
            tags: Vec::new(),
            path: None,
            summary: None,
            body,
            created: now,
            modified: now,
            status: owned("active"),
        }
    }

    /// A new active link captured now.
    pub fn new_link(url: String, title: String, body: String) -> (r: Item)
        ensures
            r.title@ == title@,
            r.body@ == body@,
            r.kind@ == "link"@,
            r.status@ == "active"@,
            r.url matches Some(u) && u@ == url@,
            r.project is None && r.path is None && r.summary is None,
            r.display_id is None,
            r.tags@.len() == 0,
            r.uuid@.len() == 36,
            r.created == r.modified,
    {
        let now = utc_now();
        Item {
            uuid: new_uuid(),
            display_id: None,
            kind: owned("link"),
            title,
            url: Some(url),
            project: None,
            tags: Vec::new(),
            path: None,
            summary: None,
            body,
            created: now,
            modified: now,
            status: owned("active"),
        }
    }

    pub fn handle(&self) -> (r: String)
        ensures
            r@ == handle_text(self.kind@, self.display_id),
    {
        proof {
            reveal_strlit("link");
            reveal_strlit("l");
            reveal_strlit("n");
        }
        let mut out = if str_eq(self.kind.as_str(), "link") {
            owned("l")
        } else {
            owned("n")
        };
        let d = match self.display_id {
            Some(d) => d,
            None => 0,
        };
        out.append(fmt_i64(d).as_str());
        out
    }
}

pub fn item_filename(item: &Item) -> (r: String)
    requires
        item.uuid@.len() >= 8,
    ensures
        r@ == filename_of(item.title@, item.uuid@),
{
    proof {
        reveal_strlit("-");
        reveal_strlit(".md");
    }
    let mut out = slugify(item.title.as_str());
    out.append("-");
    out.append(item.uuid.as_str().substring_char(0, 8));
    out.append(".md");
    assert(out@ =~= filename_of(item.title@, item.uuid@));
    out
}

pub fn item_relative_path(item: &Item) -> (r: String)
    requires
        item.uuid@.len() >= 8,
    ensures
        r@ == relative_path_of(item.kind@, item.title@, item.uuid@),
{
    proof {
        reveal_strlit("link");
        reveal_strlit("3 Resources/links");
        reveal_strlit("3 Resources/notes");
        reveal_strlit("/");
    }
    let mut out = if str_eq(item.kind.as_str(), "link") {
        owned("3 Resources/links")
    } else {
        owned("3 Resources/notes")
    };
    out.append("/");
    out.append(item_filename(item).as_str());
    out
}

// ── frontmatter ───────────────────────────────────────────────────────────

/// The YAML frontmatter of a stored item.
#[derive(Clone, Debug, Default)]
pub struct ItemFrontmatter {
    pub kind: String,
    pub uuid: String,
    pub title: Option<String>,
    pub url: Option<String>,
    pub tags: Vec<String>,
    pub project: Option<String>,
    pub created: String,
    pub modified: Option<String>,
    pub summary: Option<String>,
}

/// The frontmatter text and the body of a stored item: the file must open
/// with `---`, the frontmatter runs to the next `---`, and both parts are
/// trimmed.
pub open spec fn frontmatter_split(content: Seq<char>) -> Result<(Seq<char>, Seq<char>), Seq<char>> {
    match strip_prefix_spec(content, "---"@) {
        Some(rest) => match find_spec(rest, "---"@) {
            Some(i) => Ok((trim_spec(rest.take(i)), trim_spec(rest.skip(i + 3)))),
            None => Err("Missing frontmatter end"@),
        },
        None => Err("Missing frontmatter"@),
    }
}

pub fn split_frontmatter(content: &str) -> (r: Result<(String, String), String>)
    ensures
        match r {
            Ok((y, b)) => frontmatter_split(content@) == Ok::<(Seq<char>, Seq<char>), Seq<char>>(
                (y@, b@),
            ),
            Err(e) => frontmatter_split(content@) == Err::<(Seq<char>, Seq<char>), Seq<char>>(e@),
        },
{
    proof {
        reveal_strlit("---");
    }
    match strip_prefix(content, "---") {
        Some(rest) => {
            let n = rest.unicode_len();
            match find(rest, "---") {
                Some(i) => {
                    let yaml = rest.substring_char(0, i);
                    let body = rest.substring_char(i + 3, n);
                    assert(yaml@ =~= rest@.take(i as int));
                    assert(body@ =~= rest@.skip(i + 3));
                    Ok((owned(trim(yaml)), owned(trim(body))))
                },
                None => Err(owned("Missing frontmatter end")),
            }
        },
        None => Err(owned("Missing frontmatter")),
    }
}

// ── what a slug looks like ────────────────────────────────────────────────

/// The chars a slug is made of: lower-case ASCII letters, digits and `-`.
pub open spec fn slug_char(c: char) -> bool {
    ('a' <= c && c <= 'z') || ('0' <= c && c <= '9') || c == '-'
}

/// Slug chars only, no `--`, and no leading `-`.
pub open spec fn slug_body(b: Seq<char>) -> bool {
    &&& forall|i: int| 0 <= i < b.len() ==> slug_char(#[trigger] b[i])
    &&& forall|i: int| 0 <= i < b.len() - 1 ==> !(#[trigger] b[i] == '-' && b[i + 1] == '-')
    &&& b.len() > 0 ==> b[0] != '-'
}

/// A finished slug: a non-empty `slug_body` of at most 80 chars that does
/// not end in `-`.
pub open spec fn is_slug(v: Seq<char>) -> bool {
    &&& slug_body(v)
    &&& 0 < v.len() <= 80
    &&& v.last() != '-'
}

pub open spec fn has_alnum(s: Seq<char>) -> bool {
    exists|i: int| 0 <= i < s.len() && is_ascii_alnum(#[trigger] s[i])
}

proof fn lemma_slug_build(s: Seq<char>)
    ensures
        slug_body(slug_build(s).0),
        slug_build(s).1 == (slug_build(s).0.len() > 0 && slug_build(s).0.last() == '-'),
        slug_build(s).0.len() <= s.len(),
        slug_build(s).0.len() > 0 <==> has_alnum(s),
    decreases s.len(),
{
    if s.len() > 0 {
        let front = s.drop_last();
        lemma_slug_build(front);
        let (b, dash) = slug_build(front);
        let c = s.last();
        let r = slug_build(s).0;
        if is_ascii_alnum(c) {
            let l = ascii_lower(c);
            assert(slug_char(l)) by {
                if 'A' <= c && c <= 'Z' {
                    assert(((c as u32) + 32) as char as int == c as int + 32);
                }
            }
            assert(r == b.push(l));
            assert(forall|i: int| 0 <= i < b.len() ==> r[i] == b[i]);
            assert(has_alnum(s)) by {
                assert(s[s.len() - 1] == c);
            }
        } else if !dash && b.len() > 0 {
            assert(r == b.push('-'));
            assert(forall|i: int| 0 <= i < b.len() ==> r[i] == b[i]);
            assert(b[b.len() - 1] != '-');
            assert(has_alnum(s) == has_alnum(front)) by {
                if has_alnum(front) {
                    let i = choose|i: int| 0 <= i < front.len() && is_ascii_alnum(front[i]);
                    assert(s[i] == front[i]);
                }
                if has_alnum(s) {
                    let i = choose|i: int| 0 <= i < s.len() && is_ascii_alnum(s[i]);
                    assert(i < front.len());
                    assert(front[i] == s[i]);
                }
            }
        } else {
            assert(has_alnum(s) == has_alnum(front)) by {
                if has_alnum(front) {
                    let i = choose|i: int| 0 <= i < front.len() && is_ascii_alnum(front[i]);
                    assert(s[i] == front[i]);
                }
                if has_alnum(s) {
                    let i = choose|i: int| 0 <= i < s.len() && is_ascii_alnum(s[i]);
                    assert(i < front.len());
                    assert(front[i] == s[i]);
                }
            }
        }
    }
}

/// Trimming the dashes of a slug body drops at most its one final `-`.
proof fn lemma_trim_slug_body(b: Seq<char>)
    requires
        slug_body(b),
    ensures
        trim_dashes_start(b) == b,
        trim_dashes_end(b) == (if b.len() > 0 && b.last() == '-' { b.drop_last() } else { b }),
{
    if b.len() > 0 && b.last() == '-' {
        let d = b.drop_last();
        assert(d.len() > 0);
        assert(d.last() == b[b.len() - 2]);
        assert(d.last() != '-');
        assert(trim_dashes_end(d) == d);
        assert(trim_dashes_end(b) == trim_dashes_end(d));
    }
}

/// Each prefix of a finished slug slugs to itself.
proof fn lemma_slug_prefix(v: Seq<char>, k: int)
    requires
        slug_body(v),
        0 <= k <= v.len(),
    ensures
        slug_build(v.take(k)) == (v.take(k), k > 0 && v[k - 1] == '-'),
    decreases k,
{
    if k > 0 {
        lemma_slug_prefix(v, k - 1);
        let p = v.take(k);
        assert(p.drop_last() =~= v.take(k - 1));
        assert(p.last() == v[k - 1]);
        let c = v[k - 1];
        if c != '-' {
            assert(slug_char(c));
            assert(ascii_lower(c) == c);
            assert(v.take(k - 1).push(c) =~= p);
        } else {
            assert(k - 1 > 0);
            assert(v[k - 2] != '-');
            assert(v.take(k - 1).len() > 0);
            assert(v.take(k - 1).push('-') =~= p);
        }
    } else {
        assert(v.take(0) =~= Seq::<char>::empty());
    }
}

/// A finished slug slugs to itself.
pub proof fn lemma_slug_fixed(v: Seq<char>)
    requires
        is_slug(v),
    ensures
        slug_of(v) == v,
{
    lemma_slug_prefix(v, v.len() as int);
    assert(v.take(v.len() as int) =~= v);
    lemma_trim_slug_body(v);
}

/// A slug is made of lower-case ASCII letters, digits and single dashes,
/// neither starts nor ends with a dash, is at most 80 chars long, slugs to
/// itself, and is `untitled` exactly when the title's first 80 chars hold
/// no ASCII letter or digit.
pub proof fn lemma_slug_shape(title: Seq<char>)
    ensures
        is_slug(slug_of(title)),
        slug_of(slug_of(title)) == slug_of(title),
        !has_alnum(if title.len() <= 80 { title } else { title.take(80) }) ==> slug_of(title)
            == "untitled"@,
{
    reveal_strlit("untitled");
    let first = if title.len() <= 80 {
        title
    } else {
        title.take(80)
    };
    lemma_slug_build(first);
    let b = slug_build(first).0;
    lemma_trim_slug_body(b);
    let t = trim_dashes_end(trim_dashes_start(b));
    if t.len() > 0 {
        assert(slug_body(t)) by {
            if b.len() > 0 && b.last() == '-' {
                assert(forall|i: int| 0 <= i < t.len() ==> t[i] == b[i]);
            }
        }
        if b.len() > 0 && b.last() == '-' {
            assert(t.last() == b[b.len() - 2]);
        }
    } else {
        let u = "untitled"@;
        assert(u.len() == 8);
        assert(u =~= seq!['u', 'n', 't', 'i', 't', 'l', 'e', 'd']);
    }
    lemma_slug_fixed(slug_of(title));
}

} // verus!
