//! The command line's shorthands.

use vstd::prelude::*;
use crate::text::{owned, parse_i64, parse_i64_spec, str_eq, views};

verus! {

/// The commands that `sara <id> <command>` may name after a task id.
pub open spec fn is_id_action(a: Seq<char>) -> bool {
    ||| a == "start"@ || a == "stop"@ || a == "done"@ || a == "delete"@
    ||| a == "modify"@ || a == "info"@ || a == "dep"@ || a == "annotate"@
    ||| a == "comment"@ || a == "attach"@ || a == "pr"@ || a == "link"@
    ||| a == "addbranch"@
}

fn id_action(a: &str) -> (r: bool)
    ensures
        r == is_id_action(a@),
{
    str_eq(a, "start") || str_eq(a, "stop") || str_eq(a, "done") || str_eq(a, "delete")
        || str_eq(a, "modify") || str_eq(a, "info") || str_eq(a, "dep") || str_eq(a, "annotate")
        || str_eq(a, "comment") || str_eq(a, "attach") || str_eq(a, "pr") || str_eq(a, "link")
        || str_eq(a, "addbranch")
}

/// The arguments with the shorthands spelled out: `sara <id>` is
/// `sara info <id>`, and `sara <id> <command> …` is `sara <command> <id> …`
/// for the commands `is_id_action` names; anything else is left as it is.
pub open spec fn expanded_args(args: Seq<Seq<char>>) -> Seq<Seq<char>> {
    if args.len() == 2 && parse_i64_spec(args[1]) is Some {
        seq![args[0], "info"@, args[1]]
    } else if args.len() >= 3 && parse_i64_spec(args[1]) is Some && is_id_action(args[2]) {
        seq![args[0], args[2], args[1]] + args.subrange(3, args.len() as int)
    } else {
        args
    }
}

/// `expanded_args`, computed.
pub fn rewrite_shorthand(args: Vec<String>) -> (r: Vec<String>)
    ensures
        views(r@) == expanded_args(views(args@)),
{
    let ghost a = views(args@);
    assert(forall|i: int| 0 <= i < args@.len() ==> #[trigger] a[i] == args@[i]@);
    if args.len() == 2 && parse_i64(args[1].as_str()).is_some() {
        let mut out: Vec<String> = Vec::new();
        out.push(args[0].clone());
        out.push(owned("info"));
        out.push(args[1].clone());
        assert(views(out@) =~= seq![a[0], "info"@, a[1]]);
        out
    } else if args.len() >= 3 && parse_i64(args[1].as_str()).is_some() && id_action(
        args[2].as_str(),
    ) {
        let mut out: Vec<String> = Vec::new();
        out.push(args[0].clone());
        out.push(args[2].clone());
        out.push(args[1].clone());
        let mut i: usize = 3;
        while i < args.len()
            invariant
                3 <= i <= args.len(),
                a == views(args@),
                forall|k: int| 0 <= k < args@.len() ==> #[trigger] a[k] == args@[k]@,
                views(out@) == seq![a[0], a[2], a[1]] + a.subrange(3, i as int),
            decreases args.len() - i,
        {
            let ghost before = views(out@);
            out.push(args[i].clone());
            assert(views(out@) =~= before.push(a[i as int]));
            assert(a.subrange(3, i + 1) =~= a.subrange(3, i as int).push(a[i as int]));
            i = i + 1;
        }
        out
    } else {
        args
    }
}

/// What `sara project` is asked to do: `init` is the older spelling of the
/// top-level `init`.
pub enum ProjectAction {
    Init { name: Option<String>, goal: Option<String>, yes: bool, no_llm: bool },
}

/// What `sara provider` is asked to do with the named model profiles.
pub enum ProviderAction {
    /// List the profiles and show the active one.
    List,
    /// Switch to a named profile, or to the fallback settings for `default`.
    Use { name: String },
    /// Add (or replace) a named profile and make it active.
    Add {
        name: String,
        provider_type: String,
        model: String,
        url: Option<String>,
        key: Option<String>,
    },
    /// Remove a named profile.
    Remove { name: String },
}

} // verus!
