use git_loom::transaction::{
    aborted_message, conflict_pause_message, staged_restore, step, StagedRestore, Transaction, TxAction, TxEvent,
    TxPhase,
};
use git_loom::weave::{
    check_swap_replay, drop_landed, locate_commit, swap_commits, to_todo, BranchSection, CommitLocation, LineEntry,
    SwapError, Upstream, Weave, WeaveCommit,
};

fn commit(oid: &str, message: &str) -> WeaveCommit {
    WeaveCommit {
        oid: oid.to_string(),
        message: message.to_string(),
        patch_id: format!("patch-{oid}"),
    }
}

fn section(label: &str, commits: Vec<WeaveCommit>) -> BranchSection {
    BranchSection { label: label.to_string(), base: None, commits }
}

fn merge(label: &str, oid: &str) -> LineEntry {
    LineEntry::Merge { label: label.to_string(), oid: oid.to_string() }
}

/// Messages of the integration line's commits, newest first.
fn line_messages(w: &Weave) -> Vec<String> {
    w.integration_line
        .iter()
        .rev()
        .filter_map(|e| match e {
            LineEntry::Pick(c) => Some(c.message.clone()),
            LineEntry::Merge { .. } => None,
        })
        .collect()
}

// ── swap commits ──────────────────────────────────────────────────────────

#[test]
fn swap_commits_on_integration_line() {
    let mut weave = Weave {
        branch_sections: vec![],
        integration_line: vec![
            LineEntry::Pick(commit("c1", "First")),
            LineEntry::Pick(commit("c2", "Second")),
            LineEntry::Pick(commit("c3", "Third")),
        ],
    };

    let result = swap_commits(&mut weave, "c1", "c2");
    assert!(result.is_ok(), "swap_two_commits failed: {:?}", result);

    // Second was applied before First, so in newest-first order:
    // HEAD=Third, HEAD~1=First, HEAD~2=Second
    let messages = line_messages(&weave);
    assert_eq!(messages[0], "Third");
    assert_eq!(messages[1], "First");
    assert_eq!(messages[2], "Second");
}

#[test]
fn swap_commits_in_branch_section() {
    let mut weave = Weave {
        branch_sections: vec![section(
            "feature-a",
            vec![commit("a1", "A1"), commit("a2", "A2")],
        )],
        integration_line: vec![
            LineEntry::Pick(commit("i1", "Int")),
            merge("feature-a", "m1"),
        ],
    };

    let result = swap_commits(&mut weave, "a1", "a2");
    assert!(
        result.is_ok(),
        "swap_two_commits in branch failed: {:?}",
        result
    );

    // A2 should now be first (oldest) in the section
    assert_eq!(weave.branch_sections[0].commits[0].message, "A2");
    assert_eq!(weave.branch_sections[0].commits[1].message, "A1");
}

#[test]
fn swap_commits_across_sections_errors() {
    let mut weave = Weave {
        branch_sections: vec![
            section("feature-a", vec![commit("a1", "A1")]),
            section("feature-b", vec![commit("b1", "B1")]),
        ],
        integration_line: vec![merge("feature-a", "m1"), merge("feature-b", "m2")],
    };

    let result = swap_commits(&mut weave, "a1", "b1");
    assert!(
        result.is_err(),
        "should fail for commits in different sections"
    );
    assert!(result.unwrap_err().message().contains("different"));
    assert_eq!(weave.branch_sections[0].commits[0].oid, "a1");
    assert_eq!(weave.branch_sections[1].commits[0].oid, "b1");
}

// ── further cases ─────────────────────────────────────────────────────────

fn two_branch_weave() -> Weave {
    Weave {
        branch_sections: vec![
            section("feature-a", vec![commit("a1", "A1"), commit("a2", "A2")]),
            section("feature-b", vec![commit("b1", "B1")]),
        ],
        integration_line: vec![
            merge("feature-a", "m1"),
            LineEntry::Pick(commit("i1", "Int")),
            merge("feature-b", "m2"),
        ],
    }
}

#[test]
fn a_commit_on_the_line_and_one_in_a_section_are_in_different_sections() {
    let mut weave = two_branch_weave();
    let err = swap_commits(&mut weave, "a1", "i1").unwrap_err();
    assert!(matches!(err, SwapError::DifferentSections));
}

#[test]
fn an_unknown_commit_is_named() {
    let mut weave = two_branch_weave();
    let err = swap_commits(&mut weave, "a1", "zz9").unwrap_err();
    assert_eq!(err.message(), "commit `zz9` is not part of the integration branch");
    let err = swap_commits(&mut weave, "nope", "a1").unwrap_err();
    assert_eq!(err.message(), "commit `nope` is not part of the integration branch");
}

#[test]
fn swapping_twice_restores_the_weave() {
    let mut weave = two_branch_weave();
    swap_commits(&mut weave, "a1", "a2").unwrap();
    assert_eq!(weave.branch_sections[0].commits[0].oid, "a2");
    swap_commits(&mut weave, "a1", "a2").unwrap();
    assert_eq!(weave.branch_sections[0].commits[0].oid, "a1");
    assert_eq!(weave.branch_sections[0].commits[1].oid, "a2");
}

#[test]
fn commits_are_located_by_oid() {
    let weave = two_branch_weave();
    assert_eq!(locate_commit(&weave, "a2"), Some(CommitLocation::Section(0, 1)));
    assert_eq!(locate_commit(&weave, "b1"), Some(CommitLocation::Section(1, 0)));
    assert_eq!(locate_commit(&weave, "i1"), Some(CommitLocation::Line(1)));
    assert_eq!(locate_commit(&weave, "m1"), None);
}

#[test]
fn the_todo_builds_each_section_then_the_line() {
    assert_eq!(
        to_todo(&two_branch_weave()),
        "label onto\n\n\
         reset onto\npick a1\npick a2\nlabel feature-a\nupdate-ref refs/heads/feature-a\n\n\
         reset onto\npick b1\nlabel feature-b\nupdate-ref refs/heads/feature-b\n\n\
         reset onto\nmerge -C m1 feature-a\npick i1\nmerge -C m2 feature-b\n"
    );
}

#[test]
fn landed_commits_are_dropped_and_emptied_branches_reported() {
    // a1 was merged directly, b1 was cherry-picked upstream.
    let upstream = Upstream {
        merged: vec!["a1".to_string()],
        patch_ids: vec!["patch-b1".to_string()],
    };
    let (weave, gone) = drop_landed(&two_branch_weave(), &upstream);

    assert_eq!(gone, vec!["feature-b".to_string()]);
    assert_eq!(weave.branch_sections.len(), 1);
    assert_eq!(weave.branch_sections[0].label, "feature-a");
    assert_eq!(weave.branch_sections[0].commits.len(), 1);
    assert_eq!(weave.branch_sections[0].commits[0].oid, "a2");
    assert_eq!(
        to_todo(&weave),
        "label onto\n\n\
         reset onto\npick a2\nlabel feature-a\nupdate-ref refs/heads/feature-a\n\n\
         reset onto\nmerge -C m1 feature-a\npick i1\n"
    );

    // Dropping again changes nothing.
    let (again, gone_again) = drop_landed(&weave, &upstream);
    assert!(gone_again.is_empty());
    assert_eq!(to_todo(&again), to_todo(&weave));
}

#[test]
fn a_landed_commit_on_the_line_is_dropped() {
    let upstream = Upstream { merged: vec!["i1".to_string()], patch_ids: vec![] };
    let (weave, gone) = drop_landed(&two_branch_weave(), &upstream);
    assert!(gone.is_empty());
    assert_eq!(weave.integration_line.len(), 2);
    assert_eq!(weave.branch_sections.len(), 2);
}

fn stacked(label: &str, base: &str, commits: Vec<WeaveCommit>) -> BranchSection {
    BranchSection { label: label.to_string(), base: Some(base.to_string()), commits }
}

/// A swap that was just started, before its rebase runs.
fn idle_swap() -> Transaction {
    Transaction { phase: TxPhase::Idle, command: "swap".to_string(), has_staged: false }
}

/// Feeds the events to the transaction in turn, collecting every action.
fn drive(events: Vec<TxEvent>) -> (Transaction, Vec<TxAction>) {
    let mut t = idle_swap();
    let mut all = Vec::new();
    for e in events {
        let s = step(&t, &e).unwrap_or_else(|| panic!("{e:?} does not apply to {t:?}"));
        t = s.next;
        all.extend(s.actions);
    }
    (t, all)
}

/// Regression: loom abort after a swap conflict must preserve staged changes,
/// unstaged changes on other files, and new untracked files: the paused swap
/// kept loom's state, the abort hands the working tree back through `git
/// rebase --abort`, removes the state and puts the staging back.
#[test]
fn swap_abort_preserves_working_state() {
    let (t, actions) = drive(vec![TxEvent::Start { has_staged: true }, TxEvent::Conflicted]);
    assert_eq!(t.phase, TxPhase::Paused, "swap should pause on conflict");
    assert_eq!(
        actions,
        vec![
            TxAction::SaveStagedPatch,
            TxAction::SaveState,
            TxAction::RunRebase,
            TxAction::ReportPaused(conflict_pause_message("swap")),
        ]
    );
    assert!(!actions.contains(&TxAction::RemoveState), "loom state must exist when swap is paused on conflict");
    assert_eq!(
        conflict_pause_message("swap"),
        "Conflicts detected \u{2014} resolve them with git, then run:\n  loom continue   to complete the swap\n  loom abort      to cancel and restore original state"
    );

    let abort = step(&t, &TxEvent::AbortRequested).unwrap();
    assert_eq!(abort.next.phase, TxPhase::Finished);
    assert_eq!(
        abort.actions,
        vec![
            TxAction::AbortRebase,
            TxAction::RemoveState,
            TxAction::ReapplyStaged,
            TxAction::ReportAborted(aborted_message("swap")),
        ]
    );
    assert_eq!(aborted_message("swap"), "Aborted `loom swap` and restored original state");
}

#[test]
fn swap_refuses_when_a_swapped_commit_replays_empty() {
    // Both commits are named in the success message, so neither may vanish.
    let err = check_swap_replay("redundant", true, "keeper", false)
        .unwrap_err()
        .message();

    assert!(err.contains("is redundant"), "{err}");
    let err = check_swap_replay("keeper", false, "late", true).unwrap_err().message();
    assert!(err.contains("`late` is redundant"), "{err}");
    assert!(check_swap_replay("a", false, "b", false).is_ok());
}

/// Regression: the autostash replay unstages a staged *modification* on a
/// rebase that completed, not only on one that was aborted; the saved staged
/// patch is what puts the index back.
#[test]
fn swap_keeps_staging_on_success() {
    let (t, actions) = drive(vec![
        TxEvent::Start { has_staged: true },
        TxEvent::Completed { pop_conflicted: false, free_index: 0 },
    ]);
    assert_eq!(t.phase, TxPhase::Finished);
    assert_eq!(
        actions,
        vec![
            TxAction::SaveStagedPatch,
            TxAction::SaveState,
            TxAction::RunRebase,
            TxAction::RemoveState,
            TxAction::ReapplyStaged,
            TxAction::ReportDone,
        ]
    );
    // With nothing staged there is nothing to put back.
    let (_, actions) = drive(vec![
        TxEvent::Start { has_staged: false },
        TxEvent::Completed { pop_conflicted: false, free_index: 0 },
    ]);
    assert_eq!(
        actions,
        vec![TxAction::SaveState, TxAction::RunRebase, TxAction::RemoveState, TxAction::ReportDone]
    );
    assert!(matches!(staged_restore(true, false, 0), StagedRestore::Reapply));
}

/// Same for the resumed half: `loom continue` finishes the rebase, so it owns
/// the restore the `Completed` arm would have done.
#[test]
fn swap_keeps_staging_across_continue() {
    // Both replays conflict; each is resolved and continued.
    let (t, actions) = drive(vec![
        TxEvent::Start { has_staged: true },
        TxEvent::Conflicted,
        TxEvent::ContinueRequested,
        TxEvent::Conflicted,
        TxEvent::ContinueRequested,
    ]);
    assert_eq!(t.phase, TxPhase::Rebasing);
    assert_eq!(actions.iter().filter(|a| **a == TxAction::ContinueRebase).count(), 2);
    assert!(!actions.contains(&TxAction::RemoveState));
    assert!(!actions.contains(&TxAction::ReapplyStaged));

    let done = step(&t, &TxEvent::Completed { pop_conflicted: false, free_index: 0 }).unwrap();
    assert_eq!(done.next.phase, TxPhase::Finished);
    assert_eq!(
        done.actions,
        vec![TxAction::RemoveState, TxAction::ReapplyStaged, TxAction::ReportDone]
    );
}

/// The staged file is the one the replay conflicts on, so the autostash pop
/// conflicts too. Loom must leave that merge alone: the stages are the user's
/// to resolve and the staging lives in the stash git kept, with the staged
/// side handed over as a patch.
#[test]
fn swap_leaves_a_conflicted_autostash_pop_alone() {
    match staged_restore(true, true, 0) {
        StagedRestore::Park(name) => assert_eq!(name, "unrestored-staged-0.patch"),
        other => panic!("the staged side is parked as well, got {other:?}"),
    }
    match staged_restore(true, true, 12) {
        StagedRestore::Park(name) => assert_eq!(name, "unrestored-staged-12.patch"),
        other => panic!("unexpected {other:?}"),
    }
    let (_, actions) = drive(vec![
        TxEvent::Start { has_staged: true },
        TxEvent::Conflicted,
        TxEvent::ContinueRequested,
        TxEvent::Completed { pop_conflicted: true, free_index: 0 },
    ]);
    assert!(actions.contains(&TxAction::ParkStaged("unrestored-staged-0.patch".to_string())));
    assert!(!actions.contains(&TxAction::ReapplyStaged));
}

#[test]
fn a_refused_swap_aborts_its_rebase_and_restores_staging() {
    let (t, actions) = drive(vec![
        TxEvent::Start { has_staged: true },
        TxEvent::Refused("commit `a` is redundant".to_string()),
    ]);
    assert_eq!(t.phase, TxPhase::Finished);
    assert_eq!(
        actions[3..],
        [
            TxAction::AbortRebase,
            TxAction::RemoveState,
            TxAction::ReapplyStaged,
            TxAction::ReportError("commit `a` is redundant".to_string()),
        ]
    );
}

#[test]
fn events_that_do_not_apply_are_refused() {
    let idle = idle_swap();
    assert!(step(&idle, &TxEvent::ContinueRequested).is_none());
    assert!(step(&idle, &TxEvent::AbortRequested).is_none());
    let (done, _) = drive(vec![
        TxEvent::Start { has_staged: false },
        TxEvent::Completed { pop_conflicted: false, free_index: 0 },
    ]);
    assert!(step(&done, &TxEvent::AbortRequested).is_none());
    assert!(step(&done, &TxEvent::Start { has_staged: false }).is_none());
}

#[test]
fn a_branch_stacked_on_a_fully_merged_branch_moves_to_its_base() {
    // feature-b is stacked on feature-a; every commit of feature-a landed.
    let weave = Weave {
        branch_sections: vec![
            section("feature-a", vec![commit("a1", "A1")]),
            stacked("feature-b", "feature-a", vec![commit("b1", "B1")]),
            stacked("feature-c", "feature-b", vec![commit("c1", "C1")]),
        ],
        integration_line: vec![merge("feature-c", "m3")],
    };
    assert_eq!(
        to_todo(&weave),
        "label onto\n\n\
         reset onto\npick a1\nlabel feature-a\nupdate-ref refs/heads/feature-a\n\n\
         reset feature-a\npick b1\nlabel feature-b\nupdate-ref refs/heads/feature-b\n\n\
         reset feature-b\npick c1\nlabel feature-c\nupdate-ref refs/heads/feature-c\n\n\
         reset onto\nmerge -C m3 feature-c\n"
    );
    let upstream = Upstream { merged: vec!["a1".to_string()], patch_ids: vec![] };
    let (after, gone) = drop_landed(&weave, &upstream);
    assert_eq!(gone, vec!["feature-a".to_string()]);
    assert_eq!(after.branch_sections.len(), 2);
    assert_eq!(after.branch_sections[0].label, "feature-b");
    assert_eq!(after.branch_sections[0].base, None);
    assert_eq!(after.branch_sections[1].base, Some("feature-b".to_string()));

    // Two stacked levels landed: the top branch goes all the way down.
    let upstream = Upstream { merged: vec!["a1".to_string(), "b1".to_string()], patch_ids: vec![] };
    let (after, gone) = drop_landed(&weave, &upstream);
    assert_eq!(gone, vec!["feature-a".to_string(), "feature-b".to_string()]);
    assert_eq!(after.branch_sections.len(), 1);
    assert_eq!(after.branch_sections[0].label, "feature-c");
    assert_eq!(after.branch_sections[0].base, None);
}
