//! Comments, links and file anchors on a task: the words and references
//! the commands read.

use vstd::prelude::*;
use crate::project::without_flags;
use crate::text::{
    concat2, find, find_spec, has_prefix, join, join_spec, owned, parse_i64, parse_i64_spec,
    parse_usize, parse_usize_spec, starts_with, str_eq, trim, trim_spec, views,
};

verus! {

/// The text of an annotation: the words that are not `--flags`, joined by
/// single spaces.
pub fn annotation_text(words: &Vec<String>) -> (r: String)
    ensures
        r@ == join_spec(without_flags(views(words@)), " "@),
{
    proof {
        reveal_strlit("--");
    }
    let mut kept: Vec<String> = Vec::new();
    let mut i: usize = 0;
    assert(views(words@).take(0) =~= Seq::<Seq<char>>::empty());
    while i < words.len()
        invariant
            i <= words@.len(),
            views(kept@) == without_flags(views(words@).take(i as int)),
        decreases words@.len() - i,
    {
        proof {
            assert(views(words@).take(i + 1).drop_last() =~= views(words@).take(i as int));
            assert(views(words@).take(i + 1).last() == words@[i as int]@);
        }
        if !starts_with(words[i].as_str(), "--") {
            let ghost before = views(kept@);
            kept.push(words[i].clone());
            assert(views(kept@) =~= before.push(words@[i as int]@));
        }
        i = i + 1;
    }
    assert(views(words@).take(words@.len() as int) =~= views(words@));
    join(&kept, " ")
}

/// What an `--on` reference points at.
#[derive(Clone, Debug, PartialEq, Eq)]
pub enum OnTarget {
    /// The n-th step (1-based).
    Step(usize),
    /// The n-th acceptance criterion (1-based).
    Acceptance(usize),
    Anchor(String),
    Note(String),
}

/// The view of a target, strings as text.
pub enum OnTargetView {
    Step(usize),
    Acceptance(usize),
    Anchor(Seq<char>),
    Note(Seq<char>),
}

pub open spec fn target_view(t: OnTarget) -> OnTargetView {
    match t {
        OnTarget::Step(n) => OnTargetView::Step(n),
        OnTarget::Acceptance(n) => OnTargetView::Acceptance(n),
        OnTarget::Anchor(s) => OnTargetView::Anchor(s@),
        OnTarget::Note(s) => OnTargetView::Note(s@),
    }
}

/// How `kind:rest` reads as an `--on` reference (the kind is what comes
/// before the first `:`).
pub open spec fn on_reference(on: Seq<char>) -> Result<OnTargetView, Seq<char>> {
    match find_spec(on, ":"@) {
        Some(i) => {
            let kind = on.take(i);
            let rest = on.skip(i + 1);
            if kind == "step"@ || kind == "acceptance"@ {
                match parse_usize_spec(rest) {
                    Some(n) => Ok(
                        if kind == "step"@ {
                            OnTargetView::Step(n)
                        } else {
                            OnTargetView::Acceptance(n)
                        },
                    ),
                    None => Err("--on index must be a number"@),
                }
            } else if kind == "anchor"@ {
                Ok(OnTargetView::Anchor(rest))
            } else if kind == "note"@ {
                Ok(OnTargetView::Note(rest))
            } else {
                Err("unknown --on target kind: "@ + kind)
            }
        },
        None => Err("--on must look like step:2, acceptance:1, anchor:ID, or note:ID"@),
    }
}

/// Read an `--on` reference (`step:N`, `acceptance:N`, `anchor:ID`,
/// `note:ID`).
pub fn parse_on_ref(on: &str) -> (r: Result<OnTarget, String>)
    ensures
        match r {
            Ok(t) => on_reference(on@) == Ok::<OnTargetView, Seq<char>>(target_view(t)),
            Err(e) => on_reference(on@) == Err::<OnTargetView, Seq<char>>(e@),
        },
{
    proof {
        reveal_strlit(":");
    }
    let n = on.unicode_len();
    let i = match find(on, ":") {
        Some(i) => i,
        None => {
            return Err(owned("--on must look like step:2, acceptance:1, anchor:ID, or note:ID"));
        },
    };
    let kind = on.substring_char(0, i);
    let rest = on.substring_char(i + 1, n);
    assert(kind@ =~= on@.take(i as int));
    assert(rest@ =~= on@.skip(i + 1));
    if str_eq(kind, "step") || str_eq(kind, "acceptance") {
        match parse_usize(rest) {
            Some(k) => {
                if str_eq(kind, "step") {
                    Ok(OnTarget::Step(k))
                } else {
                    Ok(OnTarget::Acceptance(k))
                }
            },
            None => Err(owned("--on index must be a number")),
        }
    } else if str_eq(kind, "anchor") {
        Ok(OnTarget::Anchor(owned(rest)))
    } else if str_eq(kind, "note") {
        Ok(OnTarget::Note(owned(rest)))
    } else {
        Err(concat2("unknown --on target kind: ", kind))
    }
}

/// A `:` or a `-`.
pub open spec fn range_sep(c: char) -> bool {
    c == ':' || c == '-'
}

/// Position of the first separator of a line range.
pub open spec fn first_range_sep(s: Seq<char>) -> Option<int> {
    if exists|i: int| 0 <= i < s.len() && range_sep(#[trigger] s[i]) {
        Some(choose|i: int| 0 <= i < s.len() && range_sep(#[trigger] s[i]) && forall|j: int| 0 <= j < i ==> !range_sep(s[j]))
    } else {
        None
    }
}

/// The text up to the first separator.
pub open spec fn before_sep(s: Seq<char>) -> Seq<char> {
    match first_range_sep(s) {
        Some(i) => s.take(i),
        None => s,
    }
}

/// A line range `a-b` or `a:b`: the first two pieces between separators,
/// each trimmed and read as an integer where it reads as one.
pub open spec fn line_range(s: Seq<char>) -> (Option<i64>, Option<i64>) {
    (
        parse_i64_spec(trim_spec(before_sep(s))),
        match first_range_sep(s) {
            Some(i) => parse_i64_spec(trim_spec(before_sep(s.skip(i + 1)))),
            None => None,
        },
    )
}

fn sep_position(s: &str) -> (r: Option<usize>)
    ensures
        match r {
            Some(i) => first_range_sep(s@) == Some(i as int) && i < s@.len(),
            None => first_range_sep(s@) is None,
        },
{
    let n = s.unicode_len();
    let mut i: usize = 0;
    while i < n
        invariant
            n == s@.len(),
            i <= n,
            forall|j: int| 0 <= j < i ==> !range_sep(#[trigger] s@[j]),
        decreases n - i,
    {
        let c = s.get_char(i);
        if c == ':' || c == '-' {
            proof {
                assert(range_sep(s@[i as int]));
                let k = choose|k: int| 0 <= k < s@.len() && range_sep(#[trigger] s@[k]) && forall|j: int| 0 <= j < k ==> !range_sep(s@[j]);
                if k < i {
                    assert(!range_sep(s@[k]));
                }
                if k > i {
                    assert(!range_sep(s@[i as int]));
                }
            }
            return Some(i);
        }
        i = i + 1;
    }
    None
}

/// Read a `--lines` value.
pub fn parse_line_range(spec: &str) -> (r: (Option<i64>, Option<i64>))
    ensures
        r == line_range(spec@),
{
    let n = spec.unicode_len();
    match sep_position(spec) {
        Some(i) => {
            let first = spec.substring_char(0, i);
            assert(first@ =~= spec@.take(i as int));
            let rest = spec.substring_char(i + 1, n);
            assert(rest@ =~= spec@.skip(i + 1));
            let m = rest.unicode_len();
            let second = match sep_position(rest) {
                Some(j) => {
                    let s2 = rest.substring_char(0, j);
                    assert(s2@ =~= rest@.take(j as int));
                    parse_i64(trim(s2))
                },
                None => parse_i64(trim(rest)),
            };
            (parse_i64(trim(first)), second)
        },
        None => (parse_i64(trim(spec)), None),
    }
}

/// Where an anchor came from: the model (`ai`) or the user.
pub fn anchor_source(source: Option<&str>) -> (r: &'static str)
    ensures
        r@ == (match source {
            Some(s) => if s@ == "ai"@ {
                "suggested"@
            } else {
                "manual"@
            },
            None => "manual"@,
        }),
{
    match source {
        Some(s) => if str_eq(s, "ai") {
            "suggested"
        } else {
            "manual"
        },
        None => "manual",
    }
}

} // verus!
