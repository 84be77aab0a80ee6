//! What the library reads out of git's answers: remote URLs, branch and
//! commit names, the changed-file list and the base branch.

use vstd::prelude::*;
use crate::text::{
    find, find_spec, has_prefix, has_suffix, is_ws, occurs_at, owned, pieces, split_char, split_trimmed, trimmed_nonblank, str_eq, strip_prefix, strip_prefix_spec,
    strip_suffix, strip_suffix_spec, trim, trim_spec, views,
};

verus! {

/// What `String::from_utf8_lossy` makes of some bytes.
pub uninterp spec fn lossy_text(bytes: Seq<u8>) -> Seq<char>;

/// `String::from_utf8_lossy`, owned.
#[verifier::external_body]
pub(crate) fn utf8_lossy(bytes: &[u8]) -> (r: String)
    ensures
        r@ == lossy_text(bytes@),
{
    String::from_utf8_lossy(bytes).to_string()
}

/// The outcome of a git command: its trimmed output on success, else its
/// trimmed error text (or a generic message when that is empty).
pub open spec fn command_outcome(success: bool, stdout: Seq<u8>, stderr: Seq<u8>) -> Result<
    Seq<char>,
    Seq<char>,
> {
    if success {
        Ok(trim_spec(lossy_text(stdout)))
    } else if trim_spec(lossy_text(stderr)).len() == 0 {
        Err("git command failed"@)
    } else {
        Err(trim_spec(lossy_text(stderr)))
    }
}

pub fn git_result(success: bool, stdout: &[u8], stderr: &[u8]) -> (r: Result<String, String>)
    ensures
        match r {
            Ok(o) => command_outcome(success, stdout@, stderr@) == Ok::<Seq<char>, Seq<char>>(o@),
            Err(e) => command_outcome(success, stdout@, stderr@) == Err::<Seq<char>, Seq<char>>(e@),
        },
{
    if success {
        let out = utf8_lossy(stdout);
        Ok(owned(trim(out.as_str())))
    } else {
        let err = utf8_lossy(stderr);
        let t = trim(err.as_str());
        if t.unicode_len() == 0 {
            Err(owned("git command failed"))
        } else {
            Err(owned(t))
        }
    }
}

/// The checked-out branch from `git rev-parse --abbrev-ref HEAD`: nothing
/// when the command failed or HEAD is detached.
pub open spec fn branch_of(success: bool, stdout: Seq<u8>) -> Option<Seq<char>> {
    if !success || trim_spec(lossy_text(stdout)) == "HEAD"@ {
        None
    } else {
        Some(trim_spec(lossy_text(stdout)))
    }
}

pub fn branch_from_output(success: bool, stdout: &[u8]) -> (r: Option<String>)
    ensures
        match r {
            Some(b) => branch_of(success, stdout@) == Some(b@),
            None => branch_of(success, stdout@) is None,
        },
{
    if !success {
        return None;
    }
    let out = utf8_lossy(stdout);
    let b = trim(out.as_str());
    if str_eq(b, "HEAD") {
        None
    } else {
        Some(owned(b))
    }
}

/// A non-empty trimmed output of a successful command (a commit id, a
/// token, a login).
pub open spec fn nonblank_output(success: bool, stdout: Seq<u8>) -> Option<Seq<char>> {
    if !success || trim_spec(lossy_text(stdout)).len() == 0 {
        None
    } else {
        Some(trim_spec(lossy_text(stdout)))
    }
}

pub fn output_value(success: bool, stdout: &[u8]) -> (r: Option<String>)
    ensures
        match r {
            Some(v) => nonblank_output(success, stdout@) == Some(v@),
            None => nonblank_output(success, stdout@) is None,
        },
{
    if !success {
        return None;
    }
    let out = utf8_lossy(stdout);
    let v = trim(out.as_str());
    if v.unicode_len() == 0 {
        None
    } else {
        Some(owned(v))
    }
}

/// The branch to compare against: the remote default branch when git names
/// one, else `main` or `master` if it exists, else `main`.
pub open spec fn base_choice(remote_head: Option<Seq<char>>, main_exists: bool, master_exists: bool) -> Seq<
    char,
> {
    if remote_head matches Some(h) && h.len() > 0 {
        remote_head->0
    } else if main_exists {
        "main"@
    } else if master_exists {
        "master"@
    } else {
        "main"@
    }
}

pub fn default_base(remote_head: Option<&str>, main_exists: bool, master_exists: bool) -> (r: String)
    ensures
        r@ == base_choice(
            match remote_head {
                Some(h) => Some(h@),
                None => None,
            },
            main_exists,
            master_exists,
        ),
{
    match remote_head {
        Some(h) => {
            if h.unicode_len() > 0 {
                return owned(h);
            }
        },
        None => {},
    }
    if main_exists {
        owned("main")
    } else if master_exists {
        owned("master")
    } else {
        owned("main")
    }
}

/// The non-blank lines of `raw`, trimmed (what `lines().map(trim)` keeps
/// once blank lines are dropped; a `\r` before a line break is trimmed
/// with the rest).
pub fn nonblank_lines(raw: &str) -> (r: Vec<String>)
    ensures
        views(r@) == trimmed_nonblank(pieces(raw@, '\n')),
{
    split_trimmed(raw, '\n')
}

/// The files a branch changed relative to `base`, from the output of
/// `git diff --name-only base...branch`: none when the branch is the base
/// itself, else the non-blank trimmed lines.
pub fn changed_files(branch: &str, base: &str, diff_output: &str) -> (r: (String, Vec<String>))
    ensures
        r.0@ == base@,
        branch@ == base@ ==> r.1@.len() == 0,
        branch@ != base@ ==> views(r.1@) == trimmed_nonblank(pieces(diff_output@, '\n')),
{
    if str_eq(branch, base) {
        (owned(base), Vec::new())
    } else {
        (owned(base), nonblank_lines(diff_output))
    }
}

/// `owner` and `repo` from a GitHub remote URL (SSH `git@github.com:` or
/// HTTP(S) `github.com/`), an optional `.git` dropped; both must be
/// non-empty.
pub open spec fn owner_repo(url: Seq<char>) -> Option<(Seq<char>, Seq<char>)> {
    match github_path(trim_spec(url)) {
        Some(s0) => split_owner_repo(s0),
        None => None,
    }
}

/// What follows `git@github.com:`, `https://github.com/` or
/// `http://github.com/` (tried in that order).
pub open spec fn github_path(u: Seq<char>) -> Option<Seq<char>> {
    if strip_prefix_spec(u, "git@github.com:"@) is Some {
        strip_prefix_spec(u, "git@github.com:"@)
    } else if strip_prefix_spec(u, "https://github.com/"@) is Some {
        strip_prefix_spec(u, "https://github.com/"@)
    } else {
        strip_prefix_spec(u, "http://github.com/"@)
    }
}

/// `owner/repo`, with one `.git` dropped from the end, split at the first
/// `/`; both parts non-empty.
pub open spec fn split_owner_repo(s0: Seq<char>) -> Option<(Seq<char>, Seq<char>)> {
    let s = match strip_suffix_spec(s0, ".git"@) {
        Some(x) => x,
        None => s0,
    };
    split_at_slash(s)
}

/// `s` split at its first `/`, both parts non-empty.
pub open spec fn split_at_slash(s: Seq<char>) -> Option<(Seq<char>, Seq<char>)> {
    match find_spec(s, "/"@) {
        Some(i) => {
            let owner = s.take(i);
            let repo = s.skip(i + 1);
            if owner.len() == 0 || repo.len() == 0 {
                None
            } else {
                Some((owner, repo))
            }
        },
        None => None,
    }
}

pub fn parse_github_owner_repo(url: &str) -> (r: Option<(String, String)>)
    ensures
        match r {
            Some((o, p)) => owner_repo(url@) == Some((o@, p@)),
            None => owner_repo(url@) is None,
        },
{
    let u = trim(url);
    let stripped = match strip_prefix(u, "git@github.com:") {
        Some(s) => s,
        None => match strip_prefix(u, "https://github.com/") {
            Some(s) => s,
            None => match strip_prefix(u, "http://github.com/") {
                Some(s) => s,
                None => {
                    return None;
                },
            },
        },
    };
    let s = match strip_suffix(stripped, ".git") {
        Some(x) => x,
        None => stripped,
    };
    proof {
        reveal_strlit("/");
    }
    let n = s.unicode_len();
    match find(s, "/") {
        Some(i) => {
            let owner = s.substring_char(0, i);
            let repo = s.substring_char(i + 1, n);
            assert(owner@ =~= s@.take(i as int));
            assert(repo@ =~= s@.skip(i + 1));
            if owner.unicode_len() == 0 || repo.unicode_len() == 0 {
                None
            } else {
                Some((owned(owner), owned(repo)))
            }
        },
        None => None,
    }
}

// ── owner and repository round trip ──────────────────────────────────────

proof fn lemma_first_slash(o: Seq<char>, r: Seq<char>)
    requires
        !o.contains('/'),
    ensures
        find_spec(o + "/"@ + r, "/"@) == Some(o.len() as int),
{
    reveal_strlit("/");
    let s = o + "/"@ + r;
    let k = o.len() as int;
    assert(s.subrange(k, k + 1) =~= "/"@);
    assert(occurs_at(s, "/"@, k));
    assert forall|j: int| 0 <= j < k implies !occurs_at(s, "/"@, j) by {
        if occurs_at(s, "/"@, j) {
            assert(s.subrange(j, j + 1)[0] == '/');
            assert(s[j] == o[j]);
            assert(o.contains('/'));
        }
    }
    let i = choose|i: int| occurs_at(s, "/"@, i) && forall|j: int| 0 <= j < i ==> !occurs_at(s, "/"@, j);
    assert(i == k);
}

proof fn lemma_trim_keeps(u: Seq<char>)
    requires
        u.len() > 0,
        !is_ws(u[0]),
        !is_ws(u.last()),
    ensures
        trim_spec(u) == u,
{
}

proof fn lemma_github_path(p: Seq<char>, rest: Seq<char>)
    requires
        p == "git@github.com:"@ || p == "https://github.com/"@ || p == "http://github.com/"@,
    ensures
        github_path(p + rest) == Some(rest),
{
    reveal_strlit("git@github.com:");
    reveal_strlit("https://github.com/");
    reveal_strlit("http://github.com/");
    let u = p + rest;
    assert(u.subrange(0, p.len() as int) =~= p);
    assert(u.subrange(p.len() as int, u.len() as int) =~= rest);
    if p != "git@github.com:"@ {
        assert(!has_prefix(u, "git@github.com:"@)) by {
            if has_prefix(u, "git@github.com:"@) {
                assert(u.subrange(0, 15)[0] == "git@github.com:"@[0]);
                assert(u[0] == p[0]);
            }
        }
    }
    if p == "http://github.com/"@ {
        assert(!has_prefix(u, "https://github.com/"@)) by {
            if has_prefix(u, "https://github.com/"@) {
                assert(u.subrange(0, 19)[4] == "https://github.com/"@[4]);
                assert(u[4] == p[4]);
            }
        }
    }
}

proof fn lemma_no_git_suffix(o: Seq<char>, r: Seq<char>)
    requires
        r.len() > 0,
        !has_suffix(r, ".git"@),
    ensures
        !has_suffix(o + "/"@ + r, ".git"@),
{
    reveal_strlit("/");
    reveal_strlit(".git");
    let s0 = o + "/"@ + r;
    if has_suffix(s0, ".git"@) {
        let t = s0.subrange(s0.len() - 4, s0.len() as int);
        if r.len() < 4 {
            assert(t[3 - r.len() as int] == s0[s0.len() - 1 - r.len() as int]);
            assert(s0[s0.len() - 1 - r.len() as int] == '/');
            assert(".git"@[3 - r.len() as int] != '/');
        } else {
            assert(t =~= r.subrange(r.len() - 4, r.len() as int));
        }
    }
}

proof fn lemma_split_at_slash(o: Seq<char>, r: Seq<char>)
    requires
        o.len() > 0,
        !o.contains('/'),
        r.len() > 0,
    ensures
        split_at_slash(o + "/"@ + r) == Some((o, r)),
{
    reveal_strlit("/");
    let body = o + "/"@ + r;
    lemma_first_slash(o, r);
    assert(body.take(o.len() as int) =~= o);
    assert(body.skip(o.len() as int + 1) =~= r);
}

proof fn lemma_split_owner_repo(o: Seq<char>, r: Seq<char>, with_git: bool)
    requires
        o.len() > 0,
        !o.contains('/'),
        r.len() > 0,
        !with_git ==> !has_suffix(r, ".git"@),
    ensures
        split_owner_repo(o + "/"@ + r + (if with_git { ".git"@ } else { Seq::empty() })) == Some((o, r)),
{
    reveal_strlit(".git");
    let body = o + "/"@ + r;
    let s0 = body + (if with_git { ".git"@ } else { Seq::<char>::empty() });
    lemma_split_at_slash(o, r);
    if with_git {
        assert(s0.subrange(s0.len() - 4, s0.len() as int) =~= ".git"@);
        assert(s0.subrange(0, s0.len() - 4) =~= body);
        assert(strip_suffix_spec(s0, ".git"@) == Some(body));
    } else {
        assert(s0 =~= body);
        lemma_no_git_suffix(o, r);
        assert(strip_suffix_spec(s0, ".git"@) is None);
    }
}

/// A GitHub remote URL written from an owner and a repository reads back
/// as that owner and repository: `git@github.com:`, `https://github.com/`
/// or `http://github.com/`, then `owner/repo.git`, or `owner/repo` when
/// the name neither ends in `.git` nor in whitespace. (The owner is
/// non-empty without `/`; the repository is non-empty.)
pub proof fn lemma_owner_repo_round_trip(p: Seq<char>, o: Seq<char>, r: Seq<char>, with_git: bool)
    requires
        p == "git@github.com:"@ || p == "https://github.com/"@ || p == "http://github.com/"@,
        o.len() > 0,
        !o.contains('/'),
        r.len() > 0,
        !with_git ==> !has_suffix(r, ".git"@) && !is_ws(r.last()),
    ensures
        owner_repo(p + o + "/"@ + r + (if with_git { ".git"@ } else { Seq::empty() })) == Some((o, r)),
{
    reveal_strlit("git@github.com:");
    reveal_strlit("https://github.com/");
    reveal_strlit("http://github.com/");
    reveal_strlit(".git");
    let rest = o + "/"@ + r + (if with_git { ".git"@ } else { Seq::<char>::empty() });
    let u = p + o + "/"@ + r + (if with_git { ".git"@ } else { Seq::<char>::empty() });
    assert(u =~= p + rest);
    assert(u[0] == p[0]);
    assert(!is_ws(u.last())) by {
        if with_git {
            assert(u.last() == ".git"@[3]);
        } else {
            assert(u.last() == r.last());
        }
    }
    lemma_trim_keeps(u);
    lemma_github_path(p, rest);
    lemma_split_owner_repo(o, r, with_git);
}

} // verus!
