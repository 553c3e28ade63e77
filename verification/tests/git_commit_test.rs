use git_loom::transaction::{finish_fold_commit, UndoStep};
use git_loom::commit::{
    check_amend, check_fixup_commit, commit_amend_no_edit, stage_path, stage_plan, CommitError,
    PathState, PathToStage,
};

fn args(words: &[&str]) -> Vec<String> {
    words.iter().map(|s| s.to_string()).collect()
}

/// `file1.txt` committed, then deleted and the deletion staged.
fn staged_deletion() -> PathState {
    PathState { in_worktree: false, in_index: false, in_head: true }
}

fn target(path: &str, state: PathState) -> PathToStage {
    PathToStage { path: path.to_string(), state }
}

/// A staged deletion matches no pathspec, so `git add` would fail on it.
/// Staging it again is a no-op, not an error.
#[test]
fn stage_files_accepts_already_staged_deletion() {
    let result = stage_plan(&[target("file1.txt", staged_deletion())]);

    assert!(result.is_ok(), "staging failed: {:?}", result);
    assert!(result.unwrap().is_empty(), "nothing is left for `git add`");
}

/// A deletion that is not staged yet still has to be staged.
#[test]
fn stage_files_stages_unstaged_deletion() {
    let unstaged = PathState { in_worktree: false, in_index: true, in_head: true };
    assert_eq!(
        stage_plan(&[target("file1.txt", unstaged)]).unwrap(),
        vec!["file1.txt".to_string()]
    );
}

/// The skip applies per file: the rest of the batch is still staged.
#[test]
fn stage_files_stages_the_rest_of_the_batch() {
    let modified = PathState { in_worktree: true, in_index: true, in_head: true };
    let plan = stage_plan(&[target("file1.txt", staged_deletion()), target("file2.txt", modified)]).unwrap();
    assert_eq!(plan, vec!["file2.txt".to_string()]);
}

/// A path that exists nowhere is still an error — the skip must not swallow a
/// typo in a filename.
#[test]
fn stage_files_rejects_an_unknown_path() {
    let nowhere = PathState { in_worktree: false, in_index: false, in_head: false };
    let result = stage_plan(&[target("nope.txt", nowhere)]);

    assert!(result.is_err(), "unknown path should not be accepted");
    assert_eq!(
        result.unwrap_err().message(),
        "pathspec 'nope.txt' did not match any files"
    );
}

/// A broken symlink is a working tree entry, so it must be staged even though
/// the deletion of the file it replaces is already staged.
#[test]
fn stage_files_stages_a_symlink_over_a_staged_deletion() {
    let symlink = PathState { in_worktree: true, in_index: false, in_head: true };
    assert_eq!(
        stage_plan(&[target("file1.txt", symlink)]).unwrap(),
        vec!["file1.txt".to_string()]
    );
}

/// `stage_path` shares the skip with `stage_files`.
#[test]
fn stage_path_accepts_already_staged_deletion() {
    let result = stage_path(&target("file1.txt", staged_deletion()));

    assert!(result.is_ok(), "staging failed: {:?}", result);
    assert_eq!(result.unwrap(), None);
}

/// `--porcelain` and its siblings make `git commit` print the status and exit
/// 0 without committing; the callers rewrite history on the amend's word.
#[test]
fn commit_amend_no_edit_refuses_an_amend_that_did_not_commit() {
    let plan = commit_amend_no_edit(&args(&["--porcelain"]));
    // HEAD's tree before and after the dry run: git committed nothing.
    let tree = "4b825dc642cb6eb9a060e54bf8d69288fbee4904";

    let head = "1111111111111111111111111111111111111111";

    let result = check_amend(&plan, tree, tree);

    assert!(result.is_err(), "the dry run should not pass for an amend");
    assert_eq!(result.clone().unwrap_err(), CommitError::NothingAmended);
    // The attempt is taken back whole before the error is reported: HEAD goes
    // back to where it was, and the staging the user had is restored.
    let finish = finish_fold_commit(result, head);
    assert_eq!(finish.result, Err(CommitError::NothingAmended));
    assert_eq!(finish.undo.len(), 3);
    assert!(matches!(&finish.undo[0], UndoStep::ResetHead(h) if h == head));
    assert!(matches!(finish.undo[1], UndoStep::UnstageFold));
    assert!(matches!(finish.undo[2], UndoStep::RestoreOtherStaging));
}

#[test]
fn a_commit_that_happened_needs_no_undo() {
    let finish = finish_fold_commit(Ok(()), "head");
    assert!(finish.undo.is_empty());
    assert_eq!(finish.result, Ok(()));
}

/// Loom's own arguments come last, so git's last-wins parse keeps the amend
/// whatever the user forwards.
#[test]
fn commit_amend_no_edit_outranks_a_forwarded_no_amend() {
    let plan = commit_amend_no_edit(&args(&["--no-amend"]));

    assert_eq!(
        plan.args,
        args(&["commit", "--no-amend", "--amend", "--no-edit", "--allow-empty"])
    );
    let no_amend = plan.args.iter().position(|a| a == "--no-amend").unwrap();
    let amend = plan.args.iter().position(|a| a == "--amend").unwrap();
    assert!(amend > no_amend, "the amend replaced HEAD");
    assert!(check_amend(&plan, "tree-before", "tree-after").is_ok());
}

/// A hook that stages something of its own must not make a successful amend
/// look like a dry run — on either side of the commit. The tree is compared on
/// HEAD both sides, so whatever a hook added is the commit's business.
#[test]
fn commit_amend_no_edit_survives_a_hook_that_stages() {
    for (when, arg) in [("pre-commit", "-q"), ("post-commit", "--no-verify")] {
        let plan = commit_amend_no_edit(&args(&[arg]));
        assert!(plan.verify_tree, "{when}");
        // The amend changed file1.txt, so HEAD's tree changed, whatever the
        // hook staged.
        assert!(check_amend(&plan, "tree-first-commit", "tree-amended").is_ok(), "{when}");
    }
}

#[test]
fn commit_amend_no_edit_takes_an_argument_that_does_commit() {
    let plan = commit_amend_no_edit(&args(&["--no-verify"]));

    assert_eq!(
        plan.args,
        args(&["commit", "--no-verify", "--amend", "--no-edit", "--allow-empty"])
    );
    assert!(check_amend(&plan, "tree-first-commit", "tree-amended").is_ok());
}

// ── further cases ─────────────────────────────────────────────────────────

#[test]
fn an_amend_without_forwarded_arguments_is_not_judged() {
    let plan = commit_amend_no_edit(&[]);
    assert!(!plan.verify_tree);
    assert_eq!(plan.args, args(&["commit", "--amend", "--no-edit", "--allow-empty"]));
    assert!(check_amend(&plan, "same", "same").is_ok());
}

#[test]
fn a_fixup_needs_a_new_commit_on_the_old_head() {
    let parent = Some("head0".to_string());
    assert_eq!(
        check_fixup_commit("head0", "head0", &parent, "t1", "t0"),
        Err(CommitError::NoNewCommit)
    );
    assert_eq!(
        check_fixup_commit("head0", "head1", &Some("other".to_string()), "t1", "t0"),
        Err(CommitError::NoNewCommit)
    );
    assert_eq!(
        check_fixup_commit("head0", "head1", &None, "t1", "t0"),
        Err(CommitError::NoNewCommit)
    );
    assert_eq!(
        check_fixup_commit("head0", "head1", &parent, "t0", "t0"),
        Err(CommitError::EmptyFixup)
    );
    assert_eq!(check_fixup_commit("head0", "head1", &parent, "t1", "t0"), Ok(()));
}

#[test]
fn commit_errors_say_what_was_not_done() {
    assert_eq!(
        CommitError::NothingAmended.message(),
        "`git commit --amend` left the commit as it was, so nothing was amended"
    );
    assert_eq!(
        CommitError::NoNewCommit.message(),
        "`git commit` left no new commit on HEAD, so nothing was folded"
    );
    assert_eq!(
        CommitError::EmptyFixup.message(),
        "`git commit` made an empty `fixup!` commit, so nothing was folded"
    );
}

#[test]
fn the_first_unknown_path_is_reported() {
    let nowhere = PathState { in_worktree: false, in_index: false, in_head: false };
    let modified = PathState { in_worktree: true, in_index: true, in_head: true };
    let err = stage_plan(&[
        target("ok.txt", modified),
        target("typo1.txt", nowhere),
        target("typo2.txt", nowhere),
    ])
    .unwrap_err();
    assert_eq!(err.message(), "pathspec 'typo1.txt' did not match any files");
}

#[test]
fn stage_path_hands_an_ordinary_path_to_git_add() {
    let modified = PathState { in_worktree: true, in_index: true, in_head: true };
    assert_eq!(stage_path(&target("f.txt", modified)).unwrap(), Some("f.txt".to_string()));
    let nowhere = PathState { in_worktree: false, in_index: false, in_head: false };
    assert!(stage_path(&target("nope.txt", nowhere)).is_err());
}
