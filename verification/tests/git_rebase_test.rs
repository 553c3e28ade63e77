use git_loom::rebase::{
    abort_after_failure, abort_then_cleanup, classify_stop, edit_todo, linear_todo, rebase_outcome,
    GitFailure, RebaseOutcome, StopKind, TodoAction, TodoStep,
};

fn failure(subcommand: &str, detail: &str) -> GitFailure {
    GitFailure { subcommand: subcommand.to_string(), detail: detail.to_string() }
}

fn step(action: TodoAction, oid: &str) -> TodoStep {
    TodoStep { action, oid: oid.to_string() }
}

/// Whether the sequencer is still in progress after stopping at step `at`:
/// a stop is only ever at an `edit`, and the rebase goes on while the todo
/// holds steps after it.
fn in_progress_after_stop(steps: &[TodoStep], at: usize) -> bool {
    at < steps.len()
}

/// The index of the first `edit` at or after `from`, where the sequencer
/// stops next; `steps.len()` when it runs to the end.
fn next_stop(steps: &[TodoStep], from: usize) -> usize {
    (from..steps.len())
        .find(|&i| steps[i].action == TodoAction::Edit)
        .unwrap_or(steps.len())
}

/// A rebase whose todo still has an `edit` step ahead of it is not over when
/// `git rebase --continue` exits 0: it merely advanced to that next step.
/// Reporting `Completed` there would let the caller finish off a command while
/// the repository sits detached mid-rebase.
#[test]
fn continue_rebase_reports_paused_at_next_edit() {
    let (c1, c2, c3) = ("c1c1c1c", "c2c2c2c", "c3c3c3c");

    // Two `edit` steps: the rebase stops at the first, and continuing from it
    // stops at the second.
    let steps = [
        step(TodoAction::Edit, c1),
        step(TodoAction::Edit, c2),
        step(TodoAction::Pick, c3),
    ];
    let todo = linear_todo(&steps);
    assert_eq!(
        todo,
        format!("label onto\n\nreset onto\nedit {c1}\nedit {c2}\npick {c3}\n")
    );

    // `git rebase` exits 0 at the first stop.
    let first = next_stop(&steps, 0);
    assert_eq!(
        rebase_outcome::<GitFailure>(in_progress_after_stop(&steps, first), Ok(())).unwrap(),
        RebaseOutcome::Paused,
        "the rebase stops at the first `edit`, it has not completed"
    );

    // `git rebase --continue` exits 0 at the next stop.
    let second = next_stop(&steps, first + 1);
    assert_eq!(second, 1);
    assert_eq!(
        rebase_outcome::<GitFailure>(in_progress_after_stop(&steps, second), Ok(())).unwrap(),
        RebaseOutcome::Paused,
        "the second `edit` is still ahead — the rebase is not over"
    );

    // Only once the last `edit` is passed does it actually finish.
    let third = next_stop(&steps, second + 1);
    assert!(!in_progress_after_stop(&steps, third));
    assert_eq!(
        rebase_outcome::<GitFailure>(in_progress_after_stop(&steps, third), Ok(())).unwrap(),
        RebaseOutcome::Completed
    );
}

/// `git rebase --continue` with no rebase in progress is a caller bug, not a
/// conflict: reporting `Stopped` would send the user off to resolve conflicts
/// that do not exist.
#[test]
fn continue_rebase_without_a_rebase_is_an_error() {
    let run = Err(failure("rebase", "fatal: No rebase in progress?"));

    let err = rebase_outcome(false, run).unwrap_err();
    assert!(
        err.message().contains("git rebase failed"),
        "expected the rebase failure itself, got: {}",
        err.message()
    );
}

/// A command can fail before its rebase ever starts — the worktree check, the
/// git-dir lookup, a missing loom binary. There is nothing to abort then, so
/// the cleanup must still run.
#[test]
fn cleanup_runs_when_there_was_no_rebase_to_abort() {
    let mut cleaned = false;
    let decision = abort_then_cleanup(&None, "boom");
    if decision.run_cleanup {
        cleaned = true;
    }

    assert!(cleaned, "nothing was running, so the cleanup must happen");
    assert_eq!(
        decision.error, "boom",
        "the command's own failure is what the user needs to see"
    );
}

/// With a rebase actually running, the abort has to happen before the cleanup,
/// and the caller's error is still the one reported.
#[test]
fn a_live_rebase_is_aborted_before_the_cleanup_runs() {
    let mut cleaned = false;
    let decision = abort_then_cleanup(&Some(Ok(())), "boom");
    if decision.run_cleanup {
        cleaned = true;
    }

    assert!(cleaned, "the abort worked, so the cleanup must follow");
    assert_eq!(decision.error, "boom");
}

/// When the abort fails the rebase is still running, so the cleanup is skipped
/// — and the reported error must still carry the original failure, not replace
/// it with the hint.
#[test]
fn a_failed_abort_skips_the_cleanup_and_keeps_the_cause() {
    let held_lock = failure("rebase", "Unable to create '.git/index.lock': File exists.");
    let mut cleaned = false;
    let decision = abort_then_cleanup(&Some(Err(held_lock)), "boom");
    if decision.run_cleanup {
        cleaned = true;
    }

    assert!(
        !cleaned,
        "cleaning up on top of a live rebase is what this guards against"
    );
    let msg = decision.error;
    assert!(msg.contains("boom"), "the cause must survive, got: {msg}");
    assert!(msg.contains("left mid-rebase"), "{msg}");
}

/// A stop whose conflict `rerere` resolved and staged leaves no unmerged path,
/// but git still recorded `AUTO_MERGE`: that must not be mistaken for a rebase
/// that broke down.
#[test]
fn rerere_resolved_stop_is_still_a_conflict() {
    let has_unmerged_paths = false;
    let auto_merge_id = Some("d4f5e6a7b8c9d0e1f2a3b4c5d6e7f8a9b0c1d2e3".to_string());

    assert_eq!(
        classify_stop(has_unmerged_paths, &auto_merge_id),
        StopKind::Conflicts,
        "the stop must still count as a conflict"
    );

    let err = abort_after_failure(has_unmerged_paths, &auto_merge_id, &Ok(()));
    assert!(
        err.contains("Rebase failed with conflicts"),
        "a stop rerere resolved is still a conflict to report: {err}"
    );
}

/// An untracked file in the way of a picked commit stops the rebase with a
/// clean index and no `AUTO_MERGE`: that is no conflict.
#[test]
fn untracked_file_stop_is_not_a_conflict() {
    assert_eq!(
        classify_stop(false, &None),
        StopKind::Blocked,
        "an untracked file in the way is not a conflict"
    );
}

#[test]
fn rebase_outcome_classifies_all_four_cases() {
    let fail = || Err(failure("rebase", "boom"));

    assert_eq!(
        rebase_outcome::<GitFailure>(false, Ok(())).unwrap(),
        RebaseOutcome::Completed
    );
    assert!(rebase_outcome(false, fail()).is_err());

    assert_eq!(
        rebase_outcome::<GitFailure>(true, Ok(())).unwrap(),
        RebaseOutcome::Paused
    );
    assert_eq!(rebase_outcome(true, fail()).unwrap(), RebaseOutcome::Stopped);
}

// ── further cases ─────────────────────────────────────────────────────────

#[test]
fn unmerged_paths_are_a_conflict_too() {
    assert_eq!(classify_stop(true, &None), StopKind::Conflicts);
}

#[test]
fn a_blocked_stop_is_reported_as_such() {
    assert_eq!(
        abort_after_failure(false, &None, &Ok(())),
        "Rebase stopped without a conflict (an untracked file may be in the way); it was aborted and the original state restored"
    );
    assert_eq!(
        abort_after_failure(true, &None, &Ok(())),
        "Rebase failed with conflicts; it was aborted and the original state restored"
    );
}

#[test]
fn a_failed_abort_after_a_conflict_is_reported_too() {
    let msg = abort_after_failure(true, &None, &Err(failure("rebase", "locked")));
    assert_eq!(
        msg,
        "Rebase failed with conflicts, and aborting it failed too, so the repository is left mid-rebase: git rebase failed: locked"
    );
    assert!(!msg.contains("restored"), "a failed abort restored nothing: {msg}");
}

#[test]
fn a_git_failure_names_its_subcommand() {
    assert_eq!(failure("commit", "nothing to commit").message(), "git commit failed: nothing to commit");
}

#[test]
fn the_failed_abort_is_appended_to_the_cause() {
    let decision = abort_then_cleanup(&Some(Err(failure("rebase", "locked"))), "boom");
    assert_eq!(
        decision.error,
        "boom\nthe rebase could not be aborted, so the repository is left mid-rebase: git rebase failed: locked"
    );
}

#[test]
fn an_edit_todo_stops_at_the_target_and_picks_the_rest() {
    let commits = vec!["aaa".to_string(), "bbb".to_string(), "ccc".to_string()];
    assert_eq!(
        edit_todo(&commits, 1),
        "label onto\n\nreset onto\nedit bbb\npick ccc\n"
    );
    assert_eq!(edit_todo(&commits, 2), "label onto\n\nreset onto\nedit ccc\n");
}

#[test]
fn an_empty_linear_todo_is_just_the_header() {
    assert_eq!(linear_todo(&[]), "label onto\n\nreset onto\n");
}
