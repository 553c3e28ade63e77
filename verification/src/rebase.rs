//! How a rebase that loom drives ended, what to report when it stopped, and
//! what to do after it failed.
use vstd::prelude::*;

verus! {

/// How a rebase ended.
#[derive(Debug, Clone, Copy, PartialEq, Eq, Structural)]
pub enum RebaseOutcome {
    /// The rebase ran to its end.
    Completed,
    /// `git rebase` exited cleanly but the rebase is still in progress: it
    /// stopped at an `edit` step.
    Paused,
    /// `git rebase` failed and left the rebase in progress: it stopped on a
    /// conflict or a blocked pick.
    Stopped,
}

/// A git command that failed: its subcommand and what git said.
#[derive(Debug)]
pub struct GitFailure {
    pub subcommand: String,
    pub detail: String,
}

impl GitFailure {
    /// `git <subcommand> failed: <detail>`.
    pub fn message(&self) -> (res: String)
        ensures
            res@ == "git "@ + self.subcommand@ + " failed: "@ + self.detail@,
    {
        let mut msg = String::from_str("git ");
        msg.append(self.subcommand.as_str());
        msg.append(" failed: ");
        msg.append(self.detail.as_str());
        msg
    }
}

/// What a `git rebase` run (or `git rebase --continue`) came to, from its exit
/// and from whether a rebase is still in progress afterwards. A failure with
/// nothing in progress is the command's own failure, and is passed on.
pub open spec fn outcome_of<E>(in_progress: bool, result: Result<(), E>) -> Result<RebaseOutcome, E> {
    match result {
        Ok(()) => if in_progress {
            Ok(RebaseOutcome::Paused)
        } else {
            Ok(RebaseOutcome::Completed)
        },
        Err(e) => if in_progress {
            Ok(RebaseOutcome::Stopped)
        } else {
            Err(e)
        },
    }
}

/// Classifies a rebase run as `outcome_of` says.
pub fn rebase_outcome<E>(in_progress: bool, result: Result<(), E>) -> (res: Result<
    RebaseOutcome,
    E,
>)
    ensures
        res == outcome_of(in_progress, result),
{
    match result {
        Ok(()) => if in_progress {
            Ok(RebaseOutcome::Paused)
        } else {
            Ok(RebaseOutcome::Completed)
        },
        Err(e) => if in_progress {
            Ok(RebaseOutcome::Stopped)
        } else {
            Err(e)
        },
    }
}

/// Why a rebase stopped without completing.
#[derive(Debug, Clone, Copy, PartialEq, Eq, Structural)]
pub enum StopKind {
    /// A conflict: paths are unmerged, or git recorded an `AUTO_MERGE` tree
    /// (a conflict that `rerere` resolved and staged leaves no unmerged path,
    /// but still has one).
    Conflicts,
    /// Something else stopped the pick, such as an untracked file in the way.
    Blocked,
}

/// A stop is a conflict when paths are unmerged or git recorded `AUTO_MERGE`.
pub fn classify_stop(has_unmerged_paths: bool, auto_merge_id: &Option<String>) -> (res: StopKind)
    ensures
        res == (if has_unmerged_paths || auto_merge_id is Some {
            StopKind::Conflicts
        } else {
            StopKind::Blocked
        }),
{
    if has_unmerged_paths || auto_merge_id.is_some() {
        StopKind::Conflicts
    } else {
        StopKind::Blocked
    }
}

/// What stopped the rebase, as the report opens.
pub open spec fn stop_report(kind: StopKind) -> Seq<char> {
    match kind {
        StopKind::Conflicts => "Rebase failed with conflicts"@,
        StopKind::Blocked => "Rebase stopped without a conflict (an untracked file may be in the way)"@,
    }
}

/// How the report goes on: the abort put everything back, or it failed too
/// and the repository is left mid-rebase.
pub open spec fn abort_report(abort: Result<(), GitFailure>) -> Seq<char> {
    match abort {
        Ok(()) => "; it was aborted and the original state restored"@,
        Err(f) => ", and aborting it failed too, so the repository is left mid-rebase: "@ + "git "@
            + f.subcommand@ + " failed: "@ + f.detail@,
    }
}

/// The error reported after a rebase stopped and `git rebase --abort` ran:
/// the kind of stop, then whether the abort restored the original state.
pub fn abort_after_failure(
    has_unmerged_paths: bool,
    auto_merge_id: &Option<String>,
    abort: &Result<(), GitFailure>,
) -> (res: String)
    ensures
        res@ == stop_report(
            if has_unmerged_paths || auto_merge_id is Some {
                StopKind::Conflicts
            } else {
                StopKind::Blocked
            },
        ) + abort_report(*abort),
{
    let kind = classify_stop(has_unmerged_paths, auto_merge_id);
    let mut msg = match kind {
        StopKind::Conflicts => String::from_str("Rebase failed with conflicts"),
        StopKind::Blocked => String::from_str(
            "Rebase stopped without a conflict (an untracked file may be in the way)",
        ),
    };
    let ghost start = msg@;
    match abort {
        Ok(()) => {
            msg.append("; it was aborted and the original state restored");
        },
        Err(f) => {
            let detail = f.message();
            msg.append(", and aborting it failed too, so the repository is left mid-rebase: ");
            msg.append(detail.as_str());
            assert(msg@ =~= start + abort_report(*abort));
        },
    }
    msg
}

/// What follows a command's failure: whether to run the caller's cleanup, and
/// the error to report.
#[derive(Debug)]
pub struct CleanupDecision {
    pub run_cleanup: bool,
    pub error: String,
}

/// What is added to a command's error when its rebase could not be aborted.
pub open spec fn left_mid_rebase_note() -> Seq<char> {
    "\nthe rebase could not be aborted, so the repository is left mid-rebase: "@
}

/// After a command failed: `abort` is `None` when no rebase was in progress,
/// else the result of `git rebase --abort`. The cleanup (removing a temporary
/// branch, a saved patch or a state file) runs only when no rebase is left
/// running, and the command's own error is always what is reported, with the
/// failed abort added to it.
pub fn abort_then_cleanup(abort: &Option<Result<(), GitFailure>>, cause: &str) -> (res: CleanupDecision)
    ensures
        res.run_cleanup == (match abort {
            None => true,
            Some(r) => r is Ok,
        }),
        res.error@ == cause@ + match abort {
            Some(Err(f)) => left_mid_rebase_note() + "git "@ + f.subcommand@ + " failed: "@ + f.detail@,
            _ => Seq::<char>::empty(),
        },
{
    let mut error = String::from_str(cause);
    match abort {
        Some(Err(f)) => {
            let ghost start = error@;
            let detail = f.message();
            error.append("\nthe rebase could not be aborted, so the repository is left mid-rebase: ");
            error.append(detail.as_str());
            assert(error@ =~= start + (left_mid_rebase_note() + "git "@ + f.subcommand@ + " failed: "@ + f.detail@));
            CleanupDecision { run_cleanup: false, error }
        },
        _ => {
            assert(error@ + Seq::<char>::empty() =~= error@);
            CleanupDecision { run_cleanup: true, error }
        },
    }
}

/// What one line of a linear rebase todo does with its commit.
#[derive(Debug, Clone, Copy, PartialEq, Eq, Structural)]
pub enum TodoAction {
    Pick,
    Edit,
}

/// One line of a linear rebase todo.
#[derive(Debug)]
pub struct TodoStep {
    pub action: TodoAction,
    pub oid: String,
}

/// The keyword git's sequencer reads for an action.
pub open spec fn action_word(a: TodoAction) -> Seq<char> {
    match a {
        TodoAction::Pick => "pick"@,
        TodoAction::Edit => "edit"@,
    }
}

/// The lines of the steps, one per step.
pub open spec fn step_lines(steps: Seq<TodoStep>) -> Seq<char>
    decreases steps.len(),
{
    if steps.len() == 0 {
        Seq::empty()
    } else {
        step_lines(steps.drop_last()) + action_word(steps.last().action) + " "@
            + steps.last().oid@ + "\n"@
    }
}

/// The start of every todo: label the base, then start from it.
pub open spec fn todo_header() -> Seq<char> {
    "label onto\n\nreset onto\n"@
}

/// A todo that replays the steps in order on top of the rebase base.
pub fn linear_todo(steps: &[TodoStep]) -> (res: String)
    ensures
        res@ == todo_header() + step_lines(steps@),
{
    let mut todo = String::from_str("label onto\n\nreset onto\n");
    let mut i: usize = 0;
    assert(steps@.subrange(0, 0) =~= Seq::<TodoStep>::empty());
    assert(todo@ + Seq::<char>::empty() =~= todo@);
    while i < steps.len()
        invariant
            i <= steps@.len(),
            todo@ == todo_header() + step_lines(steps@.subrange(0, i as int)),
        decreases steps@.len() - i,
    {
        match steps[i].action {
            TodoAction::Pick => todo.append("pick"),
            TodoAction::Edit => todo.append("edit"),
        }
        todo.append(" ");
        todo.append(steps[i].oid.as_str());
        todo.append("\n");
        proof {
            let s = steps@.subrange(0, i + 1);
            assert(s.drop_last() =~= steps@.subrange(0, i as int));
            assert(s.last() == steps@[i as int]);
            assert(todo@ =~= todo_header() + step_lines(s));
        }
        i = i + 1;
    }
    assert(steps@.subrange(0, steps@.len() as int) =~= steps@);
    todo
}

/// The todo that stops at `commits[target]` for editing and replays the
/// commits above it: `commits` runs oldest first, from just above the base.
pub fn edit_todo(commits: &[String], target: usize) -> (res: String)
    requires
        target < commits@.len(),
    ensures
        res@ == todo_header() + step_lines(
            Seq::new(
                (commits@.len() - target) as nat,
                |i: int|
                    TodoStep {
                        action: if i == 0 {
                            TodoAction::Edit
                        } else {
                            TodoAction::Pick
                        },
                        oid: commits@[target + i],
                    },
            ),
        ),
{
    let mut steps: Vec<TodoStep> = Vec::new();
    let mut i: usize = target;
    while i < commits.len()
        invariant
            target <= i <= commits@.len(),
            steps@.len() == i - target,
            forall|k: int|
                0 <= k < steps@.len() ==> #[trigger] steps@[k] == (TodoStep {
                    action: if k == 0 {
                        TodoAction::Edit
                    } else {
                        TodoAction::Pick
                    },
                    oid: commits@[target + k],
                }),
        decreases commits@.len() - i,
    {
        let action = if i == target {
            TodoAction::Edit
        } else {
            TodoAction::Pick
        };
        steps.push(TodoStep { action, oid: commits[i].clone() });
        i = i + 1;
    }
    let ghost want = Seq::new(
        (commits@.len() - target) as nat,
        |i: int|
            TodoStep {
                action: if i == 0 {
                    TodoAction::Edit
                } else {
                    TodoAction::Pick
                },
                oid: commits@[target + i],
            },
    );
    assert(steps@ =~= want);
    linear_todo(steps.as_slice())
}

} // verus!
