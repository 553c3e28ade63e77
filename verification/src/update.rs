//! `loom update`: which remotes to fetch, and the report of the update.
use vstd::prelude::*;
use crate::words::{command, push_word, str_eq};

verus! {

/// `git fetch --tags --force --prune <remote>`: moved tags are force-updated
/// and deleted remote branches pruned.
pub open spec fn upstream_fetch(remote: Seq<char>) -> Seq<Seq<char>> {
    seq!["fetch"@, "--tags"@, "--force"@, "--prune"@, remote]
}

/// `git fetch --prune <push remote>`: no tags from the fork.
pub open spec fn push_remote_fetch(remote: Seq<char>) -> Seq<Seq<char>> {
    seq!["fetch"@, "--prune"@, remote]
}

/// The fetches an update runs, in order.
#[derive(Debug)]
pub struct FetchPlan {
    /// The upstream remote's fetch, which must succeed.
    pub upstream: Vec<String>,
    /// In a fork workflow, the push remote's fetch, whose failure is only
    /// warned about.
    pub push_remote: Option<Vec<String>>,
}

/// The upstream remote is always fetched with its tags; the remote that `push`
/// sends feature branches to is fetched too when it is another one, so that
/// branches deleted there are seen as gone.
pub fn fetch_plan(remote: &str, push_remote: &Option<String>) -> (res: FetchPlan)
    ensures
        res.upstream.deep_view() == upstream_fetch(remote@),
        match push_remote {
            Some(r) => if r@ != remote@ {
                res.push_remote matches Some(v) && v.deep_view() == push_remote_fetch(r@)
            } else {
                res.push_remote is None
            },
            None => res.push_remote is None,
        },
{
    let mut upstream = command("fetch");
    push_word(&mut upstream, "--tags");
    push_word(&mut upstream, "--force");
    push_word(&mut upstream, "--prune");
    push_word(&mut upstream, remote);
    assert(upstream.deep_view() =~= upstream_fetch(remote@));
    let push = match push_remote {
        Some(r) => if str_eq(r.as_str(), remote) {
            None
        } else {
            let mut v = command("fetch");
            push_word(&mut v, "--prune");
            push_word(&mut v, r.as_str());
            assert(v.deep_view() =~= push_remote_fetch(r@));
            Some(v)
        },
        None => None,
    };
    FetchPlan { upstream, push_remote: push }
}

/// What an update does once the fetches of its `FetchPlan` have run.
#[derive(Debug)]
pub enum FetchOutcome {
    /// The upstream fetch failed, with git's error: the update stops.
    Failed(String),
    /// The update goes on; `Some(remote)` names the push remote whose fetch
    /// failed, which is warned about.
    Proceed(Option<String>),
}

/// The upstream fetch must succeed; a failed fetch of the push remote (a fork
/// that cannot be reached) only earns a warning. `push_remote` is the push
/// remote that was fetched, if one was, and `push_ok` whether its fetch
/// succeeded.
pub fn fetch_outcome(upstream: &Result<(), String>, push_remote: &Option<String>, push_ok: bool) -> (res:
    FetchOutcome)
    ensures
        match upstream {
            Err(e) => res matches FetchOutcome::Failed(m) && m@ == e@,
            Ok(_) => match push_remote {
                Some(r) => if push_ok {
                    res matches FetchOutcome::Proceed(None)
                } else {
                    res matches FetchOutcome::Proceed(Some(w)) && w@ == r@
                },
                None => res matches FetchOutcome::Proceed(None),
            },
        },
{
    match upstream {
        Err(e) => FetchOutcome::Failed(e.clone()),
        Ok(_) => match push_remote {
            Some(r) => if push_ok {
                FetchOutcome::Proceed(None)
            } else {
                FetchOutcome::Proceed(Some(r.clone()))
            },
            None => FetchOutcome::Proceed(None),
        },
    }
}

/// The report of a finished update, such as
/// ``Updated branch `integration` with `origin/main` (abc1234 Latest commit)``.
pub fn updated_message(branch: &str, upstream: &str, short_oid: &str, subject: &str) -> (res: String)
    ensures
        res@ == "Updated branch `"@ + branch@ + "` with `"@ + upstream@ + "` ("@ + short_oid@ + " "@
            + subject@ + ")"@,
{
    let mut s = String::from_str("Updated branch `");
    s.append(branch);
    s.append("` with `");
    s.append(upstream);
    s.append("` (");
    s.append(short_oid);
    s.append(" ");
    s.append(subject);
    s.append(")");
    s
}

/// The rebase an update runs without weave topology (a plain tracked branch):
/// git's own, keeping uncommitted changes, branch refs and merges.
pub open spec fn plain_rebase() -> Seq<Seq<char>> {
    seq!["rebase"@, "--autostash"@, "--update-refs"@, "--rebase-merges"@]
}

/// With weave topology the update rebases through the weave's todo (`None`);
/// without it, it falls back to `plain_rebase`.
pub fn fallback_rebase(has_weave: bool) -> (res: Option<Vec<String>>)
    ensures
        has_weave ==> res is None,
        !has_weave ==> (res matches Some(v) && v.deep_view() == plain_rebase()),
{
    if has_weave {
        None
    } else {
        let mut v = command("rebase");
        push_word(&mut v, "--autostash");
        push_word(&mut v, "--update-refs");
        push_word(&mut v, "--rebase-merges");
        assert(v.deep_view() =~= plain_rebase());
        Some(v)
    }
}

/// `git submodule update --init --recursive`.
pub open spec fn submodule_update_args() -> Seq<Seq<char>> {
    seq!["submodule"@, "update"@, "--init"@, "--recursive"@]
}

/// Submodules are updated only when `.gitmodules` exists.
pub fn submodule_update(has_gitmodules: bool) -> (res: Option<Vec<String>>)
    ensures
        !has_gitmodules ==> res is None,
        has_gitmodules ==> (res matches Some(v) && v.deep_view() == submodule_update_args()),
{
    if has_gitmodules {
        let mut v = command("submodule");
        push_word(&mut v, "update");
        push_word(&mut v, "--init");
        push_word(&mut v, "--recursive");
        assert(v.deep_view() =~= submodule_update_args());
        Some(v)
    } else {
        None
    }
}

} // verus!
