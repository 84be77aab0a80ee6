//! `init`: recognising the project's technology stack, and reading the first
//! tasks a model suggests from the project's goal.

use vstd::prelude::*;
use crate::text::{join, join_spec, owned, pieces, split_char, trim, trim_spec, views};

verus! {

/// How many marker files are looked for.
pub const STACK_MARKER_COUNT: usize = 12;

/// The marker files looked for in a project root, in order.
pub open spec fn marker_file(i: int) -> Seq<char> {
    if i == 0 { "Cargo.toml"@ }
    else if i == 1 { "package.json"@ }
    else if i == 2 { "pyproject.toml"@ }
    else if i == 3 { "requirements.txt"@ }
    else if i == 4 { "go.mod"@ }
    else if i == 5 { "pom.xml"@ }
    else if i == 6 { "build.gradle"@ }
    else if i == 7 { "Gemfile"@ }
    else if i == 8 { "composer.json"@ }
    else if i == 9 { "pubspec.yaml"@ }
    else if i == 10 { "CMakeLists.txt"@ }
    else { "mix.exs"@ }
}

/// The stack each marker file stands for.
pub open spec fn marker_label(i: int) -> Seq<char> {
    if i == 0 { "Rust"@ }
    else if i == 1 { "Node.js/JS"@ }
    else if i == 2 || i == 3 { "Python"@ }
    else if i == 4 { "Go"@ }
    else if i == 5 { "Java/Maven"@ }
    else if i == 6 { "Java/Gradle"@ }
    else if i == 7 { "Ruby"@ }
    else if i == 8 { "PHP"@ }
    else if i == 9 { "Dart/Flutter"@ }
    else if i == 10 { "C/C++"@ }
    else { "Elixir"@ }
}

/// The `i`-th marker file name.
pub fn stack_marker(i: usize) -> (r: &'static str)
    requires
        i < STACK_MARKER_COUNT,
    ensures
        r@ == marker_file(i as int),
{
    match i {
        0 => "Cargo.toml",
        1 => "package.json",
        2 => "pyproject.toml",
        3 => "requirements.txt",
        4 => "go.mod",
        5 => "pom.xml",
        6 => "build.gradle",
        7 => "Gemfile",
        8 => "composer.json",
        9 => "pubspec.yaml",
        10 => "CMakeLists.txt",
        _ => "mix.exs",
    }
}

fn stack_label(i: usize) -> (r: &'static str)
    requires
        i < STACK_MARKER_COUNT,
    ensures
        r@ == marker_label(i as int),
{
    match i {
        0 => "Rust",
        1 => "Node.js/JS",
        2 | 3 => "Python",
        4 => "Go",
        5 => "Java/Maven",
        6 => "Java/Gradle",
        7 => "Ruby",
        8 => "PHP",
        9 => "Dart/Flutter",
        10 => "C/C++",
        _ => "Elixir",
    }
}

/// The labels of the markers present among the first `k`, in marker order,
/// one per marker.
pub open spec fn labels_found(present: Seq<bool>, k: int) -> Seq<Seq<char>>
    decreases k,
{
    if k <= 0 {
        Seq::empty()
    } else if present[k - 1] {
        labels_found(present, k - 1).push(marker_label(k - 1))
    } else {
        labels_found(present, k - 1)
    }
}

/// The stacks of a project: the label of each marker file present, in
/// marker order (both Python markers present give `Python` twice), then
/// `Swift` when a `.swift` file sits in the root; joined by `, `, or
/// `unknown` when none is found.
pub open spec fn stack_text(present: Seq<bool>, has_swift: bool) -> Seq<char> {
    let found = labels_found(present, 12);
    let all = if has_swift { found.push("Swift"@) } else { found };
    if all.len() == 0 {
        "unknown"@
    } else {
        join_spec(all, ", "@)
    }
}

/// The stack summary from which marker files exist (`present[i]` for the
/// `i`-th marker) and whether the root holds a Swift source file.
pub fn stack_summary(present: &Vec<bool>, has_swift: bool) -> (r: String)
    requires
        present@.len() == STACK_MARKER_COUNT,
    ensures
        r@ == stack_text(present@, has_swift),
{
    let mut stacks: Vec<String> = Vec::new();
    let mut i: usize = 0;
    while i < STACK_MARKER_COUNT
        invariant
            present@.len() == STACK_MARKER_COUNT,
            i <= STACK_MARKER_COUNT,
            views(stacks@) == labels_found(present@, i as int),
        decreases STACK_MARKER_COUNT - i,
    {
        let label = stack_label(i);
        if present[i] {
            let ghost before = views(stacks@);
            stacks.push(owned(label));
            assert(views(stacks@) =~= before.push(marker_label(i as int)));
        }
        i = i + 1;
    }
    if has_swift {
        let ghost before = views(stacks@);
        stacks.push(owned("Swift"));
        assert(views(stacks@) =~= before.push("Swift"@));
    }
    if stacks.len() == 0 {
        owned("unknown")
    } else {
        join(&stacks, ", ")
    }
}

// ── seeding tasks from the project goal ───────────────────────────────────

/// Whether `c` has the Unicode `Alphabetic` property.
pub uninterp spec fn alphabetic(c: char) -> bool;

/// `char::is_alphabetic`.
#[verifier::external_body]
fn is_alphabetic(c: char) -> (r: bool)
    ensures
        r == alphabetic(c),
{
    c.is_alphabetic()
}

/// `s` without its leading characters that are not alphabetic (list
/// markers, numbering, punctuation).
pub open spec fn skip_non_alpha(s: Seq<char>) -> Seq<char>
    decreases s.len(),
{
    if s.len() > 0 && !alphabetic(s[0]) {
        skip_non_alpha(s.drop_first())
    } else {
        s
    }
}

/// A suggestion line made into a task description: trimmed, then stripped
/// of what precedes its first letter.
pub open spec fn seed_text(line: Seq<char>) -> Seq<char> {
    skip_non_alpha(trim_spec(line))
}

/// The tasks listed by `lines`: each non-empty `seed_text`, with its
/// 1-based line number.
pub open spec fn seed_entries(lines: Seq<Seq<char>>) -> Seq<(int, Seq<char>)>
    decreases lines.len(),
{
    if lines.len() == 0 {
        Seq::empty()
    } else {
        let front = seed_entries(lines.drop_last());
        let t = seed_text(lines.last());
        if t.len() == 0 {
            front
        } else {
            front.push((lines.len() as int, t))
        }
    }
}

pub open spec fn seed_view(v: Seq<(usize, String)>) -> Seq<(int, Seq<char>)> {
    Seq::new(v.len(), |i: int| (v[i].0 as int, v[i].1@))
}

/// `s` from its first alphabetic character on.
fn from_first_letter(s: &str) -> (r: String)
    ensures
        r@ == skip_non_alpha(s@),
{
    let n = s.unicode_len();
    let mut i: usize = 0;
    assert(s@.subrange(0, n as int) =~= s@);
    while i < n
        invariant
            n == s@.len(),
            i <= n,
            skip_non_alpha(s@) == skip_non_alpha(s@.subrange(i as int, n as int)),
        ensures
            i <= n,
            skip_non_alpha(s@) == skip_non_alpha(s@.subrange(i as int, n as int)),
            i < n ==> alphabetic(s@[i as int]),
        decreases n - i,
    {
        if is_alphabetic(s.get_char(i)) {
            break;
        }
        assert(s@.subrange(i as int, n as int).drop_first() =~= s@.subrange(i + 1, n as int));
        i = i + 1;
    }
    let r = s.substring_char(i, n);
    proof {
        let rest = s@.subrange(i as int, n as int);
        if rest.len() > 0 {
            assert(rest[0] == s@[i as int]);
        }
    }
    owned(r)
}

/// The tasks a model's seeding suggestion lists, one per line: each line
/// trimmed and stripped of what precedes its first letter (bullets,
/// numbering), empty ones skipped, paired with its 1-based line number.
pub fn seed_lines(suggestion: &str) -> (r: Vec<(usize, String)>)
    ensures
        seed_view(r@) == seed_entries(pieces(suggestion@, '\n')),
{
    let lines = split_char(suggestion, '\n');
    let ghost ps = pieces(suggestion@, '\n');
    let mut out: Vec<(usize, String)> = Vec::new();
    let mut i: usize = 0;
    assert(ps.take(0) =~= Seq::<Seq<char>>::empty());
    while i < lines.len()
        invariant
            i <= lines.len(),
            views(lines@) == ps,
            seed_view(out@) == seed_entries(ps.take(i as int)),
        decreases lines.len() - i,
    {
        let ghost t = ps.take(i + 1);
        assert(t.drop_last() =~= ps.take(i as int));
        assert(t.last() == lines@[i as int]@);
        let text = from_first_letter(trim(lines[i].as_str()));
        if text.unicode_len() > 0 {
            let ghost before = out@;
            out.push((i + 1, text));
            assert(seed_view(out@) =~= seed_view(before).push(((i + 1) as int, text@)));
        }
        i = i + 1;
    }
    assert(ps.take(lines.len() as int) =~= ps);
    out
}

} // verus!
