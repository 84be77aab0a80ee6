//! `reset`: which project it wipes.

use vstd::prelude::*;
use crate::project::{file_name_of, project_name_from_root};
use crate::text::owned;

verus! {

/// The project to reset: the one named on the command line, else the git
/// repository's (named by its root folder), else the configured default.
pub fn resolve_name(override_name: Option<&str>, git_root: Option<&str>, default_project: &str) -> (r:
    String)
    ensures
        r@ == match override_name {
            Some(n) => n@,
            None => match git_root {
                Some(root) => match file_name_of(root@) {
                    Some(n) => n,
                    None => "inbox"@,
                },
                None => default_project@,
            },
        },
{
    match override_name {
        Some(n) => owned(n),
        None => match git_root {
            Some(root) => project_name_from_root(root),
            None => owned(default_project),
        },
    }
}

} // verus!
