//! Which project a folder belongs to, and the inline tokens of `add`.

use vstd::prelude::*;
use crate::text::{
    join, join_spec, lower_of, owned, starts_with, strip_prefix, strip_prefix_spec, to_lowercase,
    to_uppercase, upper_of, views, has_prefix,
};

verus! {

// ── paths ─────────────────────────────────────────────────────────────────

/// What `Path::new(p).file_name()` gives, as UTF-8 text (`None` for a path
/// ending in `..`, for the root, or for a name that is not valid text).
pub uninterp spec fn file_name_of(p: Seq<char>) -> Option<Seq<char>>;

/// What `Path::new(a).starts_with(b)` decides: `b` is a prefix of `a` by
/// whole components.
pub uninterp spec fn path_has_prefix(a: Seq<char>, b: Seq<char>) -> bool;

/// `Path::file_name` followed by `OsStr::to_str`.
#[verifier::external_body]
pub(crate) fn file_name(p: &str) -> (r: Option<String>)
    ensures
        match r {
            Some(n) => file_name_of(p@) == Some(n@),
            None => file_name_of(p@) is None,
        },
{
    std::path::Path::new(p).file_name().and_then(|n| n.to_str()).map(|n| n.to_string())
}

/// `Path::starts_with`: component-wise prefix test.
#[verifier::external_body]
pub(crate) fn path_starts_with(a: &str, b: &str) -> (r: bool)
    ensures
        r == path_has_prefix(a@, b@),
{
    std::path::Path::new(a).starts_with(b)
}

/// The project name a git root stands for: its last path component, else
/// `inbox`.
pub fn project_name_from_root(root: &str) -> (r: String)
    ensures
        r@ == match file_name_of(root@) {
            Some(n) => n,
            None => "inbox"@,
        },
{
    match file_name(root) {
        Some(n) => n,
        None => owned("inbox"),
    }
}

pub open spec fn opt_str_view(o: Option<&str>) -> Option<Seq<char>> {
    match o {
        Some(s) => Some(s@),
        None => None,
    }
}

/// The project root chosen for `dir`: the detected git root, unless it is
/// `$HOME` or an ancestor of it (too broad to be a project).
pub open spec fn root_for(dir: Seq<char>, git_root: Option<Seq<char>>, home: Option<Seq<char>>) -> Seq<
    char,
> {
    match git_root {
        Some(root) => if home is None || !path_has_prefix(home->0, root) {
            root
        } else {
            dir
        },
        None => dir,
    }
}

/// Pick the project root for `dir` (all inputs already canonical).
pub fn project_root_for(dir: &str, git_root: Option<&str>, home: Option<&str>) -> (r: String)
    ensures
        r@ == root_for(dir@, opt_str_view(git_root), opt_str_view(home)),
{
    match git_root {
        Some(root) => {
            let too_broad = match home {
                Some(h) => path_starts_with(h, root),
                None => false,
            };
            if too_broad {
                owned(dir)
            } else {
                owned(root)
            }
        },
        None => owned(dir),
    }
}

/// The `(name, path)` identity of the folder `dir`: the project root from
/// `project_root_for`, named by its last component (a blank or missing one
/// falls back to `default_project`).
pub fn project_identity_for_dir(
    dir: &str,
    git_root: Option<&str>,
    home: Option<&str>,
    default_project: &str,
) -> (r: (String, String))
    ensures
        r.1@ == root_for(dir@, opt_str_view(git_root), opt_str_view(home)),
        r.0@ == match file_name_of(r.1@) {
            Some(n) => if n.len() > 0 {
                n
            } else {
                default_project@
            },
            None => default_project@,
        },
{
    let root = project_root_for(dir, git_root, home);
    let name = match file_name(root.as_str()) {
        Some(n) => if n.unicode_len() > 0 {
            n
        } else {
            owned(default_project)
        },
        None => owned(default_project),
    };
    (name, root)
}

/// The name a tree summary starts with: the root's last component, else
/// `project`.
pub open spec fn tree_root_name(root: Seq<char>) -> Seq<char> {
    match file_name_of(root) {
        Some(n) => n,
        None => "project"@,
    }
}

/// The lines of a tree summary: the root's name with `/`, up to 80 files
/// indented by two spaces, and a count of the rest.
pub open spec fn tree_lines(root: Seq<char>, files: Seq<Seq<char>>) -> Seq<Seq<char>> {
    let shown = if files.len() <= 80 {
        files
    } else {
        files.take(80)
    };
    let listed = shown.map_values(|f: Seq<char>| "  "@ + f);
    if files.len() > 80 {
        seq![tree_root_name(root) + "/"@] + listed + seq![
            "  ... ("@ + crate::text::nat_digits((files.len() - 80) as nat) + " more files)"@,
        ]
    } else {
        seq![tree_root_name(root) + "/"@] + listed
    }
}

/// A concise file-tree summary for prompts: `tree_lines` joined by
/// newlines.
pub open spec fn tree_summary(root: Seq<char>, files: Seq<Seq<char>>) -> Seq<char> {
    join_spec(tree_lines(root, files), "\n"@)
}

proof fn lemma_no_newline_concat(a: Seq<char>, b: Seq<char>)
    requires
        !a.contains('\n'),
        !b.contains('\n'),
    ensures
        !(a + b).contains('\n'),
{
    if (a + b).contains('\n') {
        let j = choose|j: int| 0 <= j < (a + b).len() && (a + b)[j] == '\n';
        if j < a.len() {
            assert(a[j] == '\n');
        } else {
            assert(b[j - a.len()] == '\n');
        }
    }
}

proof fn lemma_literal_without_newline(s: Seq<char>)
    requires
        forall|i: int| 0 <= i < s.len() ==> s[i] != '\n',
    ensures
        !s.contains('\n'),
{
}

/// A tree summary splits at its newlines into exactly its lines: the
/// root's name with `/`, then `"  " + f` for each of the first 80 files in
/// order, then `  ... (N more files)` when `N` more remain; so it has at
/// most 82 lines. (No file name, nor the root's name, may hold a newline.)
pub proof fn lemma_tree_summary_lines(root: Seq<char>, files: Seq<Seq<char>>)
    requires
        forall|i: int| 0 <= i < files.len() ==> !(#[trigger] files[i]).contains('\n'),
        !tree_root_name(root).contains('\n'),
    ensures
        crate::text::pieces(tree_summary(root, files), '\n') == tree_lines(root, files),
        tree_lines(root, files).len() == 1 + (if files.len() <= 80 { files.len() as int } else { 81 }),
        tree_lines(root, files)[0] == tree_root_name(root) + "/"@,
        forall|i: int|
            0 <= i < files.len() && i < 80 ==> #[trigger] tree_lines(root, files)[i + 1] == "  "@
                + files[i],
        files.len() > 80 ==> tree_lines(root, files)[81] == "  ... ("@ + crate::text::nat_digits(
            (files.len() - 80) as nat,
        ) + " more files)"@,
{
    reveal_strlit("\n");
    reveal_strlit("/");
    reveal_strlit("  ");
    reveal_strlit("  ... (");
    reveal_strlit(" more files)");
    assert("\n"@ =~= seq!['\n']);
    let lines = tree_lines(root, files);
    lemma_literal_without_newline("/"@);
    lemma_literal_without_newline("  "@);
    lemma_literal_without_newline("  ... ("@);
    lemma_literal_without_newline(" more files)"@);
    lemma_no_newline_concat(tree_root_name(root), "/"@);
    if files.len() > 80 {
        let n = crate::text::nat_digits((files.len() - 80) as nat);
        crate::text::lemma_nat_digits_are_digits((files.len() - 80) as nat);
        lemma_literal_without_newline(n);
        lemma_no_newline_concat("  ... ("@, n);
        lemma_no_newline_concat("  ... ("@ + n, " more files)"@);
    }
    assert forall|i: int| 0 <= i < lines.len() implies !(#[trigger] lines[i]).contains('\n') by {
        if i >= 1 && i <= 80 && i - 1 < files.len() {
            lemma_no_newline_concat("  "@, files[i - 1]);
        }
    }
    crate::text::lemma_split_join(lines, '\n');
}

pub fn build_tree_summary(root: &str, files: &Vec<String>) -> (r: String)
    ensures
        r@ == tree_summary(root@, views(files@)),
{
    proof {
        reveal_strlit("project");
        reveal_strlit("/");
        reveal_strlit("  ");
        reveal_strlit("  ... (");
        reveal_strlit(" more files)");
        reveal_strlit("\n");
    }
    let root_name = match file_name(root) {
        Some(n) => n,
        None => owned("project"),
    };
    let mut lines: Vec<String> = Vec::new();
    let mut first = root_name;
    first.append("/");
    lines.push(first);
    let shown = if files.len() <= 80 {
        files.len()
    } else {
        80
    };
    let ghost fs = views(files@);
    let ghost sh = if fs.len() <= 80 {
        fs
    } else {
        fs.take(80)
    };
    let mut i: usize = 0;
    while i < shown
        invariant
            shown == sh.len(),
            i <= shown,
            fs == views(files@),
            sh == (if fs.len() <= 80 {
                fs
            } else {
                fs.take(80)
            }),
            views(lines@) == seq![(match file_name_of(root@) {
                Some(n) => n,
                None => "project"@,
            }) + "/"@] + sh.take(i as int).map_values(|f: Seq<char>| "  "@ + f),
        decreases shown - i,
    {
        let mut line = owned("  ");
        line.append(files[i].as_str());
        let ghost before = views(lines@);
        lines.push(line);
        proof {
            assert(sh[i as int] == files@[i as int]@);
            assert(sh.take(i + 1).map_values(|f: Seq<char>| "  "@ + f) =~= sh.take(i as int).map_values(
                |f: Seq<char>| "  "@ + f,
            ).push("  "@ + sh[i as int]));
            assert(views(lines@) =~= before.push("  "@ + sh[i as int]));
        }
        i = i + 1;
    }
    assert(sh.take(shown as int) =~= sh);
    if files.len() > 80 {
        let mut last = owned("  ... (");
        last.append(crate::text::fmt_u64((files.len() - 80) as u64).as_str());
        last.append(" more files)");
        let ghost before = views(lines@);
        lines.push(last);
        assert(views(lines@) =~= before.push(last@));
    }
    let r = join(&lines, "\n");
    proof {
        let root_name = match file_name_of(root@) {
            Some(n) => n,
            None => "project"@,
        };
        let listed = sh.map_values(|f: Seq<char>| "  "@ + f);
        if fs.len() > 80 {
            assert(views(lines@) =~= seq![root_name + "/"@] + listed + seq![
                "  ... ("@ + crate::text::nat_digits((fs.len() - 80) as nat) + " more files)"@,
            ]);
        } else {
            assert(views(lines@) =~= seq![root_name + "/"@] + listed);
        }
    }
    r
}

// ── inline tokens of `add` ────────────────────────────────────────────────

/// What an argument of `add` is read as.
pub enum TokenKind {
    Project(Seq<char>),
    Tag(Seq<char>),
    Priority(Seq<char>),
    Recur(Seq<char>),
    Word,
}

/// The kind of a token: `project:x`, `+tag`, `pri:x` or `every:x` (the last
/// two matched case-insensitively, their value taken from the lower-cased
/// token), else a word of the description.
pub open spec fn classify(t: Seq<char>) -> TokenKind {
    if strip_prefix_spec(t, "project:"@) is Some {
        TokenKind::Project(strip_prefix_spec(t, "project:"@)->0)
    } else if strip_prefix_spec(t, "+"@) is Some {
        TokenKind::Tag(strip_prefix_spec(t, "+"@)->0)
    } else if strip_prefix_spec(lower_of(t), "pri:"@) is Some {
        TokenKind::Priority(upper_of(strip_prefix_spec(lower_of(t), "pri:"@)->0))
    } else if strip_prefix_spec(lower_of(t), "every:"@) is Some {
        TokenKind::Recur(strip_prefix_spec(lower_of(t), "every:"@)->0)
    } else {
        TokenKind::Word
    }
}

pub open spec fn is_attr(t: Seq<char>) -> bool {
    !(classify(t) is Word)
}

/// How many tokens at the front of `c` are attributes.
pub open spec fn lead_count(c: Seq<Seq<char>>) -> nat
    decreases c.len(),
{
    if c.len() == 0 || !is_attr(c[0]) {
        0
    } else {
        1 + lead_count(c.drop_first())
    }
}

/// How many tokens at the back of `c` are attributes.
pub open spec fn trail_count(c: Seq<Seq<char>>) -> nat
    decreases c.len(),
{
    if c.len() == 0 || !is_attr(c.last()) {
        0
    } else {
        1 + trail_count(c.drop_last())
    }
}

/// The value a token carries for one attribute: `which` is 1 for the
/// project, 3 for the priority and 4 for the recurrence.
pub open spec fn attr_value(t: Seq<char>, which: int) -> Option<Seq<char>> {
    match classify(t) {
        TokenKind::Project(v) => if which == 1 {
            Some(v)
        } else {
            None
        },
        TokenKind::Priority(v) => if which == 3 {
            Some(v)
        } else {
            None
        },
        TokenKind::Recur(v) => if which == 4 {
            Some(v)
        } else {
            None
        },
        _ => None,
    }
}

pub open spec fn tag_value(t: Seq<char>) -> Option<Seq<char>> {
    match classify(t) {
        TokenKind::Tag(v) => Some(v),
        _ => None,
    }
}

/// The `which` value of the last token of `c` that carries one.
pub open spec fn last_value(c: Seq<Seq<char>>, which: int) -> Option<Seq<char>>
    decreases c.len(),
{
    if c.len() == 0 {
        None
    } else if attr_value(c.last(), which) is Some {
        attr_value(c.last(), which)
    } else {
        last_value(c.drop_last(), which)
    }
}

/// The tag values of `c`, in order.
pub open spec fn tags_in(c: Seq<Seq<char>>) -> Seq<Seq<char>>
    decreases c.len(),
{
    if c.len() == 0 {
        Seq::empty()
    } else {
        match tag_value(c.last()) {
            Some(v) => tags_in(c.drop_last()).push(v),
            None => tags_in(c.drop_last()),
        }
    }
}

/// The tag values of `c`, last first.
pub open spec fn tags_backward(c: Seq<Seq<char>>) -> Seq<Seq<char>>
    decreases c.len(),
{
    if c.len() == 0 {
        Seq::empty()
    } else {
        match tag_value(c.last()) {
            Some(v) => seq![v] + tags_backward(c.drop_last()),
            None => tags_backward(c.drop_last()),
        }
    }
}

/// The arguments that are not `--flags`.
pub open spec fn without_flags(args: Seq<Seq<char>>) -> Seq<Seq<char>>
    decreases args.len(),
{
    if args.len() == 0 {
        args
    } else if has_prefix(args.last(), "--"@) {
        without_flags(args.drop_last())
    } else {
        without_flags(args.drop_last()).push(args.last())
    }
}

/// Inline tokens read from the arguments of `add`.
#[derive(Debug)]
pub struct ParsedTokens {
    pub description: String,
    pub project: Option<String>,
    pub tags: Vec<String>,
    pub priority: Option<String>,
    pub recur: Option<String>,
}

impl Default for ParsedTokens {
    fn default() -> (r: ParsedTokens)
        ensures
            r.description@.len() == 0,
            r.project is None,
            r.tags@.len() == 0,
            r.priority is None,
            r.recur is None,
    {
        ParsedTokens {
            description: String::new(),
            project: None,
            tags: Vec::new(),
            priority: None,
            recur: None,
        }
    }
}

pub open spec fn opt_string_view(o: Option<String>) -> Option<Seq<char>> {
    match o {
        Some(s) => Some(s@),
        None => None,
    }
}

/// The leading attribute tokens, the description words and the trailing
/// attribute tokens of the flag-free arguments `c`.
pub open spec fn lead_part(c: Seq<Seq<char>>) -> Seq<Seq<char>> {
    c.take(lead_count(c) as int)
}

pub open spec fn rest_part(c: Seq<Seq<char>>) -> Seq<Seq<char>> {
    c.skip(lead_count(c) as int)
}

pub open spec fn trail_part(c: Seq<Seq<char>>) -> Seq<Seq<char>> {
    rest_part(c).skip(rest_part(c).len() - trail_count(rest_part(c)))
}

pub open spec fn middle_part(c: Seq<Seq<char>>) -> Seq<Seq<char>> {
    rest_part(c).take(rest_part(c).len() - trail_count(rest_part(c)))
}

/// The first of two readings that is present.
pub open spec fn first_of(a: Option<Seq<char>>, b: Option<Seq<char>>) -> Option<Seq<char>> {
    if a is Some {
        a
    } else {
        b
    }
}

proof fn lemma_lead_count(c: Seq<Seq<char>>)
    ensures
        lead_count(c) <= c.len(),
        forall|k: int| 0 <= k < lead_count(c) ==> is_attr(#[trigger] c[k]),
        lead_count(c) < c.len() ==> !is_attr(c[lead_count(c) as int]),
    decreases c.len(),
{
    if c.len() > 0 && is_attr(c[0]) {
        lemma_lead_count(c.drop_first());
        assert forall|k: int| 0 <= k < lead_count(c) implies is_attr(#[trigger] c[k]) by {
            if k > 0 {
                assert(c[k] == c.drop_first()[k - 1]);
            }
        }
        if lead_count(c) < c.len() {
            assert(c[lead_count(c) as int] == c.drop_first()[lead_count(c.drop_first()) as int]);
        }
    }
}

proof fn lemma_trail_count(c: Seq<Seq<char>>)
    ensures
        trail_count(c) <= c.len(),
        forall|k: int| c.len() - trail_count(c) <= k < c.len() ==> is_attr(#[trigger] c[k]),
        trail_count(c) < c.len() ==> !is_attr(c[c.len() - 1 - trail_count(c)]),
    decreases c.len(),
{
    if c.len() > 0 && is_attr(c.last()) {
        lemma_trail_count(c.drop_last());
        assert forall|k: int| c.len() - trail_count(c) <= k < c.len() implies is_attr(
            #[trigger] c[k],
        ) by {
            if k < c.len() - 1 {
                assert(c[k] == c.drop_last()[k]);
            }
        }
        if trail_count(c) < c.len() {
            assert(c[c.len() - 1 - trail_count(c)] == c.drop_last()[c.drop_last().len() - 1
                - trail_count(c.drop_last())]);
        }
    }
}

proof fn lemma_last_value_prepend(t: Seq<char>, s: Seq<Seq<char>>, which: int)
    ensures
        last_value(seq![t] + s, which) == first_of(last_value(s, which), attr_value(t, which)),
    decreases s.len(),
{
    let ts = seq![t] + s;
    if s.len() == 0 {
        assert(ts.drop_last() =~= Seq::<Seq<char>>::empty());
        assert(ts.last() == t);
        assert(last_value(Seq::<Seq<char>>::empty(), which) is None);
        assert(last_value(s, which) is None);
    } else {
        lemma_last_value_prepend(t, s.drop_last(), which);
        assert(ts.drop_last() =~= seq![t] + s.drop_last());
        assert(ts.last() == s.last());
    }
}

proof fn lemma_tags_backward_prepend(t: Seq<char>, s: Seq<Seq<char>>)
    ensures
        tags_backward(seq![t] + s) == tags_backward(s) + match tag_value(t) {
            Some(v) => seq![v],
            None => Seq::<Seq<char>>::empty(),
        },
    decreases s.len(),
{
    let ts = seq![t] + s;
    if s.len() == 0 {
        assert(ts.drop_last() =~= Seq::<Seq<char>>::empty());
        assert(ts.last() == t);
        assert(tags_backward(ts.drop_last()) =~= Seq::<Seq<char>>::empty());
        match tag_value(t) {
            Some(v) => {
                assert(seq![v] + Seq::<Seq<char>>::empty() =~= seq![v]);
            },
            None => {},
        }
    } else {
        lemma_tags_backward_prepend(t, s.drop_last());
        assert(ts.drop_last() =~= seq![t] + s.drop_last());
        assert(ts.last() == s.last());
        match tag_value(s.last()) {
            Some(v) => {
                let tail = match tag_value(t) {
                    Some(w) => seq![w],
                    None => Seq::<Seq<char>>::empty(),
                };
                assert(seq![v] + (tags_backward(s.drop_last()) + tail) =~= (seq![v] + tags_backward(
                    s.drop_last(),
                )) + tail);
            },
            None => {},
        }
    }
}

/// The token's kind, computed.
fn classify_token(t: &str) -> (r: (u8, String))
    ensures
        match classify(t@) {
            TokenKind::Project(v) => r.0 == 1 && r.1@ == v,
            TokenKind::Tag(v) => r.0 == 2 && r.1@ == v,
            TokenKind::Priority(v) => r.0 == 3 && r.1@ == v,
            TokenKind::Recur(v) => r.0 == 4 && r.1@ == v,
            TokenKind::Word => r.0 == 0,
        },
{
    proof {
        reveal_strlit("project:");
        reveal_strlit("+");
        reveal_strlit("pri:");
        reveal_strlit("every:");
    }
    match strip_prefix(t, "project:") {
        Some(v) => {
            return (1, owned(v));
        },
        None => {},
    }
    match strip_prefix(t, "+") {
        Some(v) => {
            return (2, owned(v));
        },
        None => {},
    }
    let lower = to_lowercase(t);
    match strip_prefix(lower.as_str(), "pri:") {
        Some(v) => {
            return (3, to_uppercase(v));
        },
        None => {},
    }
    match strip_prefix(lower.as_str(), "every:") {
        Some(v) => (4, owned(v)),
        None => (0, String::new()),
    }
}

/// Split the arguments of `add` into inline attribute tokens and the literal
/// description. Tokens count only as leading or trailing words (after any
/// `--flag` arguments are dropped); the words between stay the description,
/// joined by single spaces. A leading `project:`/`pri:`/`every:` token wins
/// over a trailing one (the later of several leading ones, the outermost of
/// several trailing ones); tags collect the leading ones in order, then the
/// trailing ones from the end inwards.
pub fn parse_add_tokens(args: &[String]) -> (r: ParsedTokens)
    ensures
        ({
            let c = without_flags(views(args@));
            &&& r.description@ == join_spec(middle_part(c), " "@)
            &&& opt_string_view(r.project) == first_of(
                last_value(lead_part(c), 1),
                last_value(trail_part(c), 1),
            )
            &&& opt_string_view(r.priority) == first_of(
                last_value(lead_part(c), 3),
                last_value(trail_part(c), 3),
            )
            &&& opt_string_view(r.recur) == first_of(
                last_value(lead_part(c), 4),
                last_value(trail_part(c), 4),
            )
            &&& views(r.tags@) == tags_in(lead_part(c)) + tags_backward(trail_part(c))
        }),
{
    proof {
        reveal_strlit("--");
        reveal_strlit(" ");
    }
    // Drop any --flag tokens first.
    let mut cleaned: Vec<String> = Vec::new();
    let mut i: usize = 0;
    assert(views(args@).take(0) =~= Seq::<Seq<char>>::empty());
    while i < args.len()
        invariant
            i <= args@.len(),
            views(cleaned@) == without_flags(views(args@).take(i as int)),
        decreases args@.len() - i,
    {
        proof {
            assert(views(args@).take(i + 1).drop_last() =~= views(args@).take(i as int));
            assert(views(args@).take(i + 1).last() == args@[i as int]@);
        }
        if !starts_with(args[i].as_str(), "--") {
            let ghost before = views(cleaned@);
            cleaned.push(args[i].clone());
            assert(views(cleaned@) =~= before.push(args@[i as int]@));
        }
        i = i + 1;
    }
    assert(views(args@).take(args@.len() as int) =~= views(args@));
    let ghost c = views(cleaned@);
    proof {
        lemma_lead_count(c);
    }
    let n = cleaned.len();
    let mut project: Option<String> = None;
    let mut priority: Option<String> = None;
    let mut recur: Option<String> = None;
    let mut tags: Vec<String> = Vec::new();
    // Leading tokens.
    let mut lo: usize = 0;
    assert(c.take(0) =~= Seq::<Seq<char>>::empty());
    loop
        invariant
            n == c.len(),
            c == views(cleaned@),
            lo <= lead_count(c),
            lead_count(c) <= c.len(),
            forall|k: int| 0 <= k < lead_count(c) ==> is_attr(#[trigger] c[k]),
            lead_count(c) < c.len() ==> !is_attr(c[lead_count(c) as int]),
            opt_string_view(project) == last_value(c.take(lo as int), 1),
            opt_string_view(priority) == last_value(c.take(lo as int), 3),
            opt_string_view(recur) == last_value(c.take(lo as int), 4),
            views(tags@) == tags_in(c.take(lo as int)),
        ensures
            lo == lead_count(c),
            opt_string_view(project) == last_value(c.take(lo as int), 1),
            opt_string_view(priority) == last_value(c.take(lo as int), 3),
            opt_string_view(recur) == last_value(c.take(lo as int), 4),
            views(tags@) == tags_in(c.take(lo as int)),
        decreases n - lo,
    {
        if lo >= n {
            break;
        }
        let (kind, value) = classify_token(cleaned[lo].as_str());
        proof {
            assert(c.take(lo + 1).drop_last() =~= c.take(lo as int));
            assert(c.take(lo + 1).last() == c[lo as int]);
            assert(c[lo as int] == cleaned@[lo as int]@);
        }
        if kind == 0 {
            break;
        }
        if kind == 1 {
            project = Some(value);
        } else if kind == 2 {
            let ghost before = views(tags@);
            tags.push(value);
            assert(views(tags@) =~= before.push(value@));
        } else if kind == 3 {
            priority = Some(value);
        } else {
            recur = Some(value);
        }
        lo = lo + 1;
    }
    let ghost rest = c.skip(lo as int);
    proof {
        lemma_trail_count(rest);
    }
    // Trailing tokens.
    let mut hi: usize = n;
    let ghost lead_project = opt_string_view(project);
    let ghost lead_priority = opt_string_view(priority);
    let ghost lead_recur = opt_string_view(recur);
    let ghost lead_tags = views(tags@);
    assert(rest.skip(rest.len() as int) =~= Seq::<Seq<char>>::empty());
    loop
        invariant
            n == c.len(),
            c == views(cleaned@),
            lo == lead_count(c),
            lo <= hi <= n,
            rest == c.skip(lo as int),
            n - hi <= trail_count(rest),
            trail_count(rest) <= rest.len(),
            forall|k: int| rest.len() - trail_count(rest) <= k < rest.len() ==> is_attr(
                #[trigger] rest[k],
            ),
            trail_count(rest) < rest.len() ==> !is_attr(rest[rest.len() - 1 - trail_count(rest)]),
            opt_string_view(project) == first_of(lead_project, last_value(rest.skip(hi - lo), 1)),
            opt_string_view(priority) == first_of(lead_priority, last_value(rest.skip(hi - lo), 3)),
            opt_string_view(recur) == first_of(lead_recur, last_value(rest.skip(hi - lo), 4)),
            views(tags@) == lead_tags + tags_backward(rest.skip(hi - lo)),
        ensures
            n - hi == trail_count(rest),
            lo <= hi,
            opt_string_view(project) == first_of(lead_project, last_value(rest.skip(hi - lo), 1)),
            opt_string_view(priority) == first_of(lead_priority, last_value(rest.skip(hi - lo), 3)),
            opt_string_view(recur) == first_of(lead_recur, last_value(rest.skip(hi - lo), 4)),
            views(tags@) == lead_tags + tags_backward(rest.skip(hi - lo)),
        decreases hi - lo,
    {
        if hi <= lo {
            break;
        }
        let (kind, value) = classify_token(cleaned[hi - 1].as_str());
        let ghost after = rest.skip(hi - 1 - lo);
        proof {
            if kind == 0 {
                assert(!is_attr(rest[hi - 1 - lo]));
            }
        }
        if kind == 0 {
            break;
        }
        proof {
            assert(rest[hi - 1 - lo] == c[hi - 1]);
            assert(c[hi - 1] == cleaned@[hi - 1]@);
            assert(after =~= seq![c[hi - 1]] + rest.skip(hi - lo));
            lemma_last_value_prepend(c[hi - 1], rest.skip(hi - lo), 1);
            lemma_last_value_prepend(c[hi - 1], rest.skip(hi - lo), 3);
            lemma_last_value_prepend(c[hi - 1], rest.skip(hi - lo), 4);
            lemma_tags_backward_prepend(c[hi - 1], rest.skip(hi - lo));
        }
        if kind == 1 {
            if project.is_none() {
                project = Some(value);
            }
        } else if kind == 2 {
            let ghost before = views(tags@);
            tags.push(value);
            assert(views(tags@) =~= before.push(value@));
        } else if kind == 3 {
            if priority.is_none() {
                priority = Some(value);
            }
        } else {
            if recur.is_none() {
                recur = Some(value);
            }
        }
        hi = hi - 1;
    }
    let mut middle: Vec<String> = Vec::new();
    let mut k: usize = lo;
    while k < hi
        invariant
            lo <= k <= hi,
            hi <= n,
            n == c.len(),
            c == views(cleaned@),
            views(middle@) == c.subrange(lo as int, k as int),
        decreases hi - k,
    {
        let ghost before = views(middle@);
        middle.push(cleaned[k].clone());
        assert(views(middle@) =~= before.push(c[k as int]));
        assert(c.subrange(lo as int, k + 1) =~= c.subrange(lo as int, k as int).push(c[k as int]));
        k = k + 1;
    }
    let description = join(&middle, " ");
    assert(c.subrange(lo as int, hi as int) =~= rest.take(rest.len() - trail_count(rest)));
    ParsedTokens { description, project, tags, priority, recur }
}

// ── how `add` splits its words ────────────────────────────────────────────

/// How many tokens of `c` carry a tag.
pub open spec fn tag_count(c: Seq<Seq<char>>) -> nat
    decreases c.len(),
{
    if c.len() == 0 {
        0
    } else {
        tag_count(c.drop_last()) + if tag_value(c.last()) is Some { 1nat } else { 0nat }
    }
}

proof fn lemma_tags_len(c: Seq<Seq<char>>)
    ensures
        tags_in(c).len() == tag_count(c),
        tags_backward(c).len() == tag_count(c),
    decreases c.len(),
{
    if c.len() > 0 {
        lemma_tags_len(c.drop_last());
    }
}

/// The words of `add` (its `--flags` left out) split into three runs: the
/// leading attribute tokens, the description words, and the trailing
/// attribute tokens. The description is the middle run joined by spaces;
/// it starts and ends with a plain word (or is empty); every word before
/// and after it is an attribute token; and there is one tag per `+tag`
/// token of the two outer runs.
pub proof fn lemma_add_token_split(args: Seq<Seq<char>>)
    ensures
        ({
            let c = without_flags(args);
            let i = lead_count(c) as int;
            let j = i + middle_part(c).len();
            &&& 0 <= i <= j <= c.len()
            &&& middle_part(c) == c.subrange(i, j)
            &&& lead_part(c) == c.take(i)
            &&& trail_part(c) == c.skip(j)
            &&& forall|k: int| 0 <= k < i ==> is_attr(#[trigger] c[k])
            &&& forall|k: int| j <= k < c.len() ==> is_attr(#[trigger] c[k])
            &&& i < j ==> !is_attr(c[i]) && !is_attr(c[j - 1])
            &&& (tags_in(lead_part(c)) + tags_backward(trail_part(c))).len() == tag_count(c.take(i))
                + tag_count(c.skip(j))
        }),
{
    let c = without_flags(args);
    lemma_lead_count(c);
    let i = lead_count(c) as int;
    let rest = rest_part(c);
    lemma_trail_count(rest);
    let t = trail_count(rest) as int;
    let j = i + (rest.len() - t);
    assert(middle_part(c) =~= c.subrange(i, j));
    assert(trail_part(c) =~= c.skip(j));
    assert(lead_part(c) =~= c.take(i));
    assert forall|k: int| j <= k < c.len() implies is_attr(#[trigger] c[k]) by {
        assert(c[k] == rest[k - i]);
    }
    if i < j {
        assert(c[j - 1] == rest[rest.len() - 1 - t]);
    }
    lemma_tags_len(c.take(i));
    lemma_tags_len(c.skip(j));
}

/// The project root is never `$HOME` nor a folder above it, unless it is
/// the folder itself: a git root that holds the home folder is passed over.
pub proof fn lemma_root_not_above_home(dir: Seq<char>, git_root: Option<Seq<char>>, home: Seq<char>)
    ensures
        path_has_prefix(home, root_for(dir, git_root, Some(home))) ==> root_for(dir, git_root, Some(home))
            == dir,
        git_root matches Some(g) ==> (!path_has_prefix(home, g) ==> root_for(dir, git_root, Some(home))
            == g),
{
}

/// A `project:` token names its project exactly as typed: the prefix is
/// matched case-sensitively and the rest of the token is kept unchanged; a
/// token without that prefix never names a project. A `+` token (not a
/// project token) is a tag named by the rest of the token, also as typed.
pub proof fn lemma_project_token_as_typed(t: Seq<char>)
    ensures
        has_prefix(t, "project:"@) ==> classify(t) == TokenKind::Project(t.skip(8)),
        !has_prefix(t, "project:"@) ==> !(classify(t) is Project),
        !has_prefix(t, "project:"@) && has_prefix(t, "+"@) ==> classify(t) == TokenKind::Tag(
            t.skip(1),
        ),
{
    reveal_strlit("project:");
    reveal_strlit("+");
    assert(t.subrange(8, t.len() as int) =~= t.skip(8));
    assert(t.subrange(1, t.len() as int) =~= t.skip(1));
}

} // verus!
