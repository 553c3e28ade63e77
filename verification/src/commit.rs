//! Loom's own commits: the amend a fold makes and the checks that it really
//! committed, and which paths `git add` is handed when staging.
use vstd::prelude::*;
use crate::forward::commit_args;
use crate::words::{command, push_word, str_eq};

verus! {

/// The arguments loom itself gives a fold's amend.
pub open spec fn amend_own_args() -> Seq<Seq<char>> {
    seq!["--amend"@, "--no-edit"@, "--allow-empty"@]
}

/// How to run an amend: the `git` arguments, and whether the result must be
/// checked to hold a change.
#[derive(Debug)]
pub struct AmendPlan {
    pub args: Vec<String>,
    pub verify_tree: bool,
}

/// `git commit <forwarded> --amend --no-edit --allow-empty`. Loom's own
/// arguments come last, so git's last-wins parse keeps the amend whatever is
/// forwarded. With forwarded arguments the amend is checked afterwards: an
/// option such as `--porcelain` makes git print and exit 0 without committing.
pub fn commit_amend_no_edit(forwarded: &[String]) -> (res: AmendPlan)
    ensures
        res.args.deep_view() == seq!["commit"@] + forwarded.deep_view() + amend_own_args(),
        res.verify_tree == (forwarded@.len() > 0),
{
    let mut own = command("--amend");
    push_word(&mut own, "--no-edit");
    push_word(&mut own, "--allow-empty");
    assert(own.deep_view() =~= amend_own_args());
    AmendPlan { args: commit_args(forwarded, own.as_slice()), verify_tree: forwarded.len() > 0 }
}

/// A commit that git reported as made and did not make, or made empty.
#[derive(Debug, Clone, Copy, PartialEq, Eq, Structural)]
pub enum CommitError {
    /// The amend left HEAD's tree as it was.
    NothingAmended,
    /// HEAD is not a new commit on top of the HEAD the fixup was made on.
    NoNewCommit,
    /// The fixup commit has its parent's tree.
    EmptyFixup,
}

/// The message shown for each error.
pub open spec fn commit_error_message(e: CommitError) -> Seq<char> {
    match e {
        CommitError::NothingAmended => "`git commit --amend` left the commit as it was, so nothing was amended"@,
        CommitError::NoNewCommit => "`git commit` left no new commit on HEAD, so nothing was folded"@,
        CommitError::EmptyFixup => "`git commit` made an empty `fixup!` commit, so nothing was folded"@,
    }
}

impl CommitError {
    /// The message shown to the user.
    pub fn message(&self) -> (res: String)
        ensures
            res@ == commit_error_message(*self),
    {
        match self {
            CommitError::NothingAmended => String::from_str(
                "`git commit --amend` left the commit as it was, so nothing was amended",
            ),
            CommitError::NoNewCommit => String::from_str(
                "`git commit` left no new commit on HEAD, so nothing was folded",
            ),
            CommitError::EmptyFixup => String::from_str(
                "`git commit` made an empty `fixup!` commit, so nothing was folded",
            ),
        }
    }
}

/// Judges an amend by HEAD's tree before and after it. Only a plan with
/// forwarded arguments is judged: without them git cannot be told to do
/// anything but amend.
pub fn check_amend(plan: &AmendPlan, tree_before: &str, tree_after: &str) -> (res: Result<
    (),
    CommitError,
>)
    ensures
        res is Err <==> (plan.verify_tree && tree_before@ == tree_after@),
        res is Err ==> res == Err::<(), CommitError>(CommitError::NothingAmended),
{
    if plan.verify_tree && str_eq(tree_before, tree_after) {
        Err(CommitError::NothingAmended)
    } else {
        Ok(())
    }
}

/// Judges the `fixup!` commit a fold made on a non-HEAD target: HEAD must be a
/// new commit whose parent is the HEAD it was made on, and its tree must differ
/// from that parent's.
pub fn check_fixup_commit(
    head_before: &str,
    head_after: &str,
    parent_of_head_after: &Option<String>,
    tree_after: &str,
    parent_tree: &str,
) -> (res: Result<(), CommitError>)
    ensures
        ({
            let new_commit = head_after@ != head_before@ && match parent_of_head_after {
                Some(p) => p@ == head_before@,
                None => false,
            };
            res == if !new_commit {
                Err::<(), CommitError>(CommitError::NoNewCommit)
            } else if tree_after@ == parent_tree@ {
                Err(CommitError::EmptyFixup)
            } else {
                Ok(())
            }
        }),
{
    if str_eq(head_after, head_before) {
        return Err(CommitError::NoNewCommit);
    }
    match parent_of_head_after {
        None => {
            return Err(CommitError::NoNewCommit);
        },
        Some(p) => {
            if !str_eq(p.as_str(), head_before) {
                return Err(CommitError::NoNewCommit);
            }
        },
    }
    if str_eq(tree_after, parent_tree) {
        Err(CommitError::EmptyFixup)
    } else {
        Ok(())
    }
}

/// Where a path to stage stands: in the working tree (a broken symlink counts),
/// in the index, in HEAD.
#[derive(Debug, Clone, Copy, PartialEq, Eq, Structural)]
pub struct PathState {
    pub in_worktree: bool,
    pub in_index: bool,
    pub in_head: bool,
}

/// A path to stage, with where it stands.
#[derive(Debug)]
pub struct PathToStage {
    pub path: String,
    pub state: PathState,
}

/// A deletion already staged: gone from the working tree and the index, still
/// in HEAD. `git add` would fail on it, so staging it again is a no-op.
pub open spec fn is_staged_deletion(s: PathState) -> bool {
    !s.in_worktree && !s.in_index && s.in_head
}

/// A path that exists nowhere: a typo, which is still an error.
pub open spec fn is_unknown(s: PathState) -> bool {
    !s.in_worktree && !s.in_index && !s.in_head
}

/// The paths handed to `git add`, in order: every path but the staged
/// deletions.
pub open spec fn paths_to_add(ts: Seq<PathToStage>) -> Seq<Seq<char>>
    decreases ts.len(),
{
    if ts.len() == 0 {
        Seq::empty()
    } else if is_staged_deletion(ts.last().state) {
        paths_to_add(ts.drop_last())
    } else {
        paths_to_add(ts.drop_last()).push(ts.last().path@)
    }
}

/// The first path that exists nowhere.
pub open spec fn first_unknown(ts: Seq<PathToStage>) -> Option<Seq<char>>
    decreases ts.len(),
{
    if ts.len() == 0 {
        None
    } else if is_unknown(ts[0].state) {
        Some(ts[0].path@)
    } else {
        first_unknown(ts.drop_first())
    }
}

/// A path to stage that exists nowhere.
#[derive(Debug)]
pub enum StageError {
    UnknownPath(String),
}

impl StageError {
    /// The message shown to the user, in git's words.
    pub fn message(&self) -> (res: String)
        ensures
            match self {
                StageError::UnknownPath(p) => res@ == "pathspec '"@ + p@ + "' did not match any files"@,
            },
    {
        match self {
            StageError::UnknownPath(p) => {
                let mut msg = String::from_str("pathspec '");
                msg.append(p.as_str());
                msg.append("' did not match any files");
                msg
            },
        }
    }
}

proof fn lemma_first_unknown_prefix(ts: Seq<PathToStage>, i: int)
    requires
        0 <= i < ts.len(),
        forall|j: int| 0 <= j < i ==> !is_unknown(#[trigger] ts[j].state),
    ensures
        first_unknown(ts) == first_unknown(ts.subrange(i, ts.len() as int)),
    decreases i,
{
    if i > 0 {
        let rest = ts.drop_first();
        assert forall|j: int| 0 <= j < i - 1 implies !is_unknown(#[trigger] rest[j].state) by {
            assert(rest[j] == ts[j + 1]);
        }
        lemma_first_unknown_prefix(rest, i - 1);
        assert(rest.subrange(i - 1, rest.len() as int) =~= ts.subrange(i, ts.len() as int));
    } else {
        assert(ts.subrange(0, ts.len() as int) =~= ts);
    }
}

proof fn lemma_no_unknown(ts: Seq<PathToStage>)
    requires
        forall|j: int| 0 <= j < ts.len() ==> !is_unknown(#[trigger] ts[j].state),
    ensures
        first_unknown(ts) is None,
    decreases ts.len(),
{
    if ts.len() > 0 {
        let rest = ts.drop_first();
        assert forall|j: int| 0 <= j < rest.len() implies !is_unknown(#[trigger] rest[j].state) by {
            assert(rest[j] == ts[j + 1]);
        }
        lemma_no_unknown(rest);
    }
}

/// What `git add` is handed when staging `targets`: every path but the staged
/// deletions, in order. A path that exists nowhere is refused, the first one
/// named.
pub fn stage_plan(targets: &[PathToStage]) -> (res: Result<Vec<String>, StageError>)
    ensures
        match first_unknown(targets@) {
            Some(p) => res matches Err(StageError::UnknownPath(s)) && s@ == p,
            None => res matches Ok(v) && v.deep_view() == paths_to_add(targets@),
        },
{
    let n = targets.len();
    let mut i: usize = 0;
    while i < n
        invariant
            n == targets@.len(),
            i <= n,
            forall|j: int| 0 <= j < i ==> !is_unknown(#[trigger] targets@[j].state),
        decreases n - i,
    {
        let s = targets[i].state;
        if !s.in_worktree && !s.in_index && !s.in_head {
            proof {
                lemma_first_unknown_prefix(targets@, i as int);
                assert(targets@.subrange(i as int, n as int)[0] == targets@[i as int]);
            }
            return Err(StageError::UnknownPath(targets[i].path.clone()));
        }
        i = i + 1;
    }
    proof {
        lemma_no_unknown(targets@);
    }
    let mut v: Vec<String> = Vec::new();
    let mut k: usize = 0;
    assert(targets@.subrange(0, 0) =~= Seq::<PathToStage>::empty());
    assert(v.deep_view() =~= Seq::<Seq<char>>::empty());
    while k < n
        invariant
            n == targets@.len(),
            k <= n,
            v.deep_view() == paths_to_add(targets@.subrange(0, k as int)),
        decreases n - k,
    {
        let ghost before = v.deep_view();
        let ghost sub = targets@.subrange(0, k + 1);
        assert(sub.drop_last() =~= targets@.subrange(0, k as int));
        assert(sub.last() == targets@[k as int]);
        let s = targets[k].state;
        if !(!s.in_worktree && !s.in_index && s.in_head) {
            v.push(targets[k].path.clone());
            assert(v.deep_view() =~= before.push(targets@[k as int].path@));
        }
        k = k + 1;
    }
    assert(targets@.subrange(0, n as int) =~= targets@);
    Ok(v)
}

/// Every path that exists in the working tree or the index is handed to `git
/// add`; every path handed to it is one of the targets that is not a staged
/// deletion (gone from the working tree and the index, still in HEAD); and,
/// where the targets name distinct paths, a staged deletion is not handed to
/// it.
pub proof fn lemma_what_git_add_is_handed(ts: Seq<PathToStage>)
    ensures
        forall|i: int|
            0 <= i < ts.len() && ((#[trigger] ts[i]).state.in_worktree || ts[i].state.in_index)
                ==> paths_to_add(ts).contains(ts[i].path@),
        forall|k: int|
            #![trigger paths_to_add(ts)[k]]
            0 <= k < paths_to_add(ts).len() ==> exists|i: int|
                0 <= i < ts.len() && (#[trigger] ts[i]).path@ == paths_to_add(ts)[k] && !(
                !ts[i].state.in_worktree && !ts[i].state.in_index && ts[i].state.in_head),
        (forall|i: int, j: int|
            0 <= i < ts.len() && 0 <= j < ts.len() && i != j ==> (#[trigger] ts[i]).path@
                != (#[trigger] ts[j]).path@) ==> forall|i: int|
            0 <= i < ts.len() && !(#[trigger] ts[i]).state.in_worktree && !ts[i].state.in_index
                && ts[i].state.in_head ==> !paths_to_add(ts).contains(ts[i].path@),
    decreases ts.len(),
{
    if ts.len() > 0 {
        let init = ts.drop_last();
        lemma_what_git_add_is_handed(init);
        let out = paths_to_add(ts);
        let prev = paths_to_add(init);
        let last = ts.last();
        assert(ts[ts.len() - 1] == last);
        assert forall|i: int|
            0 <= i < ts.len() && ((#[trigger] ts[i]).state.in_worktree || ts[i].state.in_index)
                implies out.contains(ts[i].path@) by {
            if i < init.len() {
                assert(init[i] == ts[i]);
                let k = choose|k: int| 0 <= k < prev.len() && prev[k] == ts[i].path@;
                if !is_staged_deletion(last.state) {
                    assert(out[k] == prev[k]);
                }
            } else {
                assert(out[out.len() - 1] == last.path@);
            }
        }
        assert forall|k: int| #![trigger paths_to_add(ts)[k]]
            0 <= k < paths_to_add(ts).len() implies exists|i: int|
                0 <= i < ts.len() && (#[trigger] ts[i]).path@ == paths_to_add(ts)[k] && !(
                !ts[i].state.in_worktree && !ts[i].state.in_index && ts[i].state.in_head) by {
            if k < prev.len() {
                assert(out[k] == prev[k]);
                assert(prev[k] == paths_to_add(init)[k]);
                let i = choose|i: int|
                    0 <= i < init.len() && (#[trigger] init[i]).path@ == paths_to_add(init)[k] && !(
                    !init[i].state.in_worktree && !init[i].state.in_index && init[i].state.in_head);
                assert(ts[i] == init[i]);
            } else {
                assert(out[k] == last.path@);
                assert(ts[ts.len() - 1].path@ == out[k]);
            }
        }
        if forall|i: int, j: int|
            0 <= i < ts.len() && 0 <= j < ts.len() && i != j ==> (#[trigger] ts[i]).path@
                != (#[trigger] ts[j]).path@ {
            assert forall|i: int, j: int|
                0 <= i < init.len() && 0 <= j < init.len() && i != j implies (#[trigger] init[i]).path@
                    != (#[trigger] init[j]).path@ by {
                assert(init[i] == ts[i]);
                assert(init[j] == ts[j]);
            }
            assert forall|i: int|
                0 <= i < ts.len() && !(#[trigger] ts[i]).state.in_worktree && !ts[i].state.in_index
                    && ts[i].state.in_head implies !out.contains(ts[i].path@) by {
                if i < init.len() {
                    assert(init[i] == ts[i]);
                    assert(!prev.contains(ts[i].path@));
                    if !is_staged_deletion(last.state) {
                        assert(ts[i].path@ != last.path@);
                        if out.contains(ts[i].path@) {
                            let k = choose|k: int| 0 <= k < out.len() && out[k] == ts[i].path@;
                            if k < prev.len() {
                                assert(prev[k] == out[k]);
                            }
                        }
                    }
                } else {
                    assert(out == prev);
                    if prev.contains(last.path@) {
                        let k = choose|k: int| 0 <= k < prev.len() && prev[k] == last.path@;
                        let j = choose|j: int|
                            0 <= j < init.len() && (#[trigger] init[j]).path@ == paths_to_add(init)[k]
                                && !(!init[j].state.in_worktree && !init[j].state.in_index
                                && init[j].state.in_head);
                        assert(ts[j] == init[j]);
                    }
                }
            }
        }
    }
}

/// The first path that exists nowhere is the first target that is in neither
/// the working tree, the index nor HEAD; there is none exactly when every
/// target is in one of them.
pub proof fn lemma_first_unknown_is_first_nowhere(ts: Seq<PathToStage>)
    ensures
        first_unknown(ts) matches Some(p) ==> exists|i: int|
            0 <= i < ts.len() && (#[trigger] ts[i]).path@ == p && !ts[i].state.in_worktree
                && !ts[i].state.in_index && !ts[i].state.in_head && forall|j: int|
                0 <= j < i ==> ((#[trigger] ts[j]).state.in_worktree || ts[j].state.in_index
                    || ts[j].state.in_head),
        first_unknown(ts) is None ==> forall|i: int|
            0 <= i < ts.len() ==> ((#[trigger] ts[i]).state.in_worktree || ts[i].state.in_index
                || ts[i].state.in_head),
    decreases ts.len(),
{
    if ts.len() > 0 {
        let rest = ts.drop_first();
        lemma_first_unknown_is_first_nowhere(rest);
        if !is_unknown(ts[0].state) {
            if let Some(p) = first_unknown(ts) {
                let i = choose|i: int|
                    0 <= i < rest.len() && (#[trigger] rest[i]).path@ == p && !rest[i].state.in_worktree
                        && !rest[i].state.in_index && !rest[i].state.in_head && forall|j: int|
                        0 <= j < i ==> ((#[trigger] rest[j]).state.in_worktree || rest[j].state.in_index
                            || rest[j].state.in_head);
                assert(ts[i + 1] == rest[i]);
                assert forall|j: int| 0 <= j < i + 1 implies ((#[trigger] ts[j]).state.in_worktree
                    || ts[j].state.in_index || ts[j].state.in_head) by {
                    if j > 0 {
                        assert(ts[j] == rest[j - 1]);
                    }
                }
            } else {
                assert forall|i: int| 0 <= i < ts.len() implies ((#[trigger] ts[i]).state.in_worktree
                    || ts[i].state.in_index || ts[i].state.in_head) by {
                    if i > 0 {
                        assert(ts[i] == rest[i - 1]);
                    }
                }
            }
        }
    }
}

/// What `git add` is handed when staging one path: nothing for a staged
/// deletion, the path otherwise; a path that exists nowhere is refused.
pub fn stage_path(target: &PathToStage) -> (res: Result<Option<String>, StageError>)
    ensures
        !target.state.in_worktree && !target.state.in_index && !target.state.in_head ==> (res matches Err(
            StageError::UnknownPath(s),
        ) && s@ == target.path@),
        !target.state.in_worktree && !target.state.in_index && target.state.in_head ==> res matches Ok(
            None,
        ),
        target.state.in_worktree || target.state.in_index ==> (res matches Ok(Some(s)) && s@
            == target.path@),
{
    let s = target.state;
    if !s.in_worktree && !s.in_index && !s.in_head {
        Err(StageError::UnknownPath(target.path.clone()))
    } else if !s.in_worktree && !s.in_index && s.in_head {
        Ok(None)
    } else {
        Ok(Some(target.path.clone()))
    }
}

/// What `git add` is handed is built target by target, in order: one target
/// gives its path unless it is gone from the working tree and the index and
/// still in HEAD, and two lists of targets one after the other give the
/// first's paths followed by the second's.
pub proof fn lemma_paths_to_add_compose(t1: Seq<PathToStage>, t2: Seq<PathToStage>, t: PathToStage)
    ensures
        paths_to_add(t1 + t2) == paths_to_add(t1) + paths_to_add(t2),
        paths_to_add(seq![t]) == if !t.state.in_worktree && !t.state.in_index && t.state.in_head {
            Seq::<Seq<char>>::empty()
        } else {
            seq![t.path@]
        },
    decreases t2.len(),
{
    assert(seq![t].drop_last() =~= Seq::<PathToStage>::empty());
    assert(seq![t].last() == t);
    assert(paths_to_add(Seq::<PathToStage>::empty()).push(t.path@) =~= seq![t.path@]);
    if t2.len() == 0 {
        assert(t1 + t2 =~= t1);
        assert(paths_to_add(t1) + paths_to_add(t2) =~= paths_to_add(t1));
    } else {
        lemma_paths_to_add_compose(t1, t2.drop_last(), t);
        assert((t1 + t2).drop_last() =~= t1 + t2.drop_last());
        assert((t1 + t2).last() == t2.last());
        if is_staged_deletion(t2.last().state) {
            assert(paths_to_add(t1) + paths_to_add(t2) =~= paths_to_add(t1) + paths_to_add(t2.drop_last()));
        } else {
            assert(paths_to_add(t1) + paths_to_add(t2) =~= (paths_to_add(t1) + paths_to_add(t2.drop_last())).push(
                t2.last().path@,
            ));
        }
    }
}

} // verus!
