//! GitHub issue sync: finding the token the API calls use.

use vstd::prelude::*;
use crate::text::{owned, trim_spec, is_blank};

verus! {

/// A token that is present and not blank.
pub open spec fn usable(t: Option<String>) -> bool {
    t matches Some(s) && trim_spec(s@).len() > 0
}

/// The first usable token among the three sources, in order.
pub open spec fn token_choice(a: Option<String>, b: Option<String>, c: Option<String>) -> Option<
    Seq<char>,
> {
    if usable(a) {
        Some(a->0@)
    } else if usable(b) {
        Some(b->0@)
    } else if usable(c) {
        Some(c->0@)
    } else {
        None
    }
}

/// The error shown when no token is found anywhere.
pub open spec fn no_token_message() -> Seq<char> {
    "No GitHub token found. Authenticate the gh CLI with 'gh auth login', or export GH_TOKEN or GITHUB_TOKEN in your shell, for example:\nexport GH_TOKEN=ghp_your_token_here\nthen launch Sara again."@
}

/// `r` is what the resolution gives when the three sources answered `a`,
/// `b` and `c` (a source that was not consulted may have any answer).
pub open spec fn resolved<F: Fn(&str) -> Option<String>, G: FnOnce() -> Option<String>>(
    lookup: F,
    gh_token: G,
    a: Option<String>,
    b: Option<String>,
    c: Option<String>,
    r: Result<String, String>,
) -> bool {
    &&& lookup.ensures(("GH_TOKEN",), a)
    &&& !usable(a) ==> lookup.ensures(("GITHUB_TOKEN",), b)
    &&& !usable(a) && !usable(b) ==> gh_token.ensures((), c)
    &&& match r {
        Ok(t) => token_choice(a, b, c) == Some(t@),
        Err(e) => token_choice(a, b, c) is None && e@ == no_token_message(),
    }
}

fn usable_token(t: &Option<String>) -> (r: bool)
    ensures
        r == usable(*t),
{
    match t {
        Some(s) => !is_blank(s.as_str()),
        None => false,
    }
}

/// Resolve the GitHub token: `GH_TOKEN`, then `GITHUB_TOKEN` (both read
/// through `lookup`), then the gh CLI's stored token; blank values are
/// skipped. A later source is consulted only when the earlier ones gave
/// nothing usable.
pub fn resolve_github_token_from<F, G>(lookup: F, gh_token: G) -> (r: Result<String, String>)
    where
        F: Fn(&str) -> Option<String>,
        G: FnOnce() -> Option<String>,
    requires
        forall|k: &str| lookup.requires((k,)),
        gh_token.requires(()),
    ensures
        exists|a: Option<String>, b: Option<String>, c: Option<String>|
            #[trigger] resolved(lookup, gh_token, a, b, c, r),
{
    let a = lookup("GH_TOKEN");
    if usable_token(&a) {
        let t = a.unwrap();
        assert(resolved(lookup, gh_token, a, None, None, Ok::<String, String>(t)));
        return Ok(t);
    }
    let b = lookup("GITHUB_TOKEN");
    if usable_token(&b) {
        let t = b.unwrap();
        assert(resolved(lookup, gh_token, a, b, None, Ok::<String, String>(t)));
        return Ok(t);
    }
    let c = gh_token();
    if usable_token(&c) {
        let t = c.unwrap();
        assert(resolved(lookup, gh_token, a, b, c, Ok::<String, String>(t)));
        return Ok(t);
    }
    let e = owned(
        "No GitHub token found. Authenticate the gh CLI with 'gh auth login', or export GH_TOKEN or GITHUB_TOKEN in your shell, for example:\nexport GH_TOKEN=ghp_your_token_here\nthen launch Sara again.",
    );
    assert(resolved(lookup, gh_token, a, b, c, Err::<String, String>(e)));
    Err(e)
}

} // verus!
