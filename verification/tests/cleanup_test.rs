use git_loom::update::{fallback_rebase, fetch_outcome, fetch_plan, submodule_update, updated_message, FetchOutcome};
use git_loom::cleanup::{
    cleanup_heading, decimal_text, removal_offer, removal_question, removed_message, removes_without_prompt,
    skipped_message, CleanupReason,
};

#[test]
fn numbers_are_written_in_decimal() {
    assert_eq!(decimal_text(0), "0");
    assert_eq!(decimal_text(7), "7");
    assert_eq!(decimal_text(10), "10");
    assert_eq!(decimal_text(1234567890), "1234567890");
    assert_eq!(decimal_text(usize::MAX), usize::MAX.to_string());
}

#[test]
fn headings_count_the_branches() {
    assert_eq!(
        cleanup_heading(1, CleanupReason::FullyMerged),
        "1 local branch fully merged upstream:"
    );
    assert_eq!(
        cleanup_heading(2, CleanupReason::GoneUpstream),
        "2 local branches with a gone upstream:"
    );
    assert_eq!(
        cleanup_heading(1, CleanupReason::GoneUpstream),
        "1 local branch with a gone upstream:"
    );
}

#[test]
fn the_question_fits_the_count() {
    assert_eq!(removal_question(1), "Remove it? [y/N]");
    assert_eq!(removal_question(2), "Remove them? [y/N]");
}

#[test]
fn yes_or_the_config_skip_the_prompt() {
    assert!(removes_without_prompt(true, None));
    assert!(removes_without_prompt(false, Some(true)));
    assert!(removes_without_prompt(true, Some(false)));
    assert!(!removes_without_prompt(false, Some(false)));
    assert!(!removes_without_prompt(false, None));
}

#[test]
fn removal_reports_show_the_tip_and_skips_the_reason() {
    assert_eq!(removed_message("old-feature", "abc1234"), "Removed branch `old-feature` (was abc1234)");
    assert_eq!(
        skipped_message("work-in-progress"),
        "Skipped branch `work-in-progress` \u{2014} could not delete it (run `loom trace` for the git error)"
    );
}

#[test]
fn an_update_fetches_the_tracked_remote_with_its_tags() {
    let plan = fetch_plan("origin", &None);
    assert_eq!(plan.upstream, vec!["fetch", "--tags", "--force", "--prune", "origin"]);
    assert!(plan.push_remote.is_none());
    let plan = fetch_plan("origin", &Some("origin".to_string()));
    assert!(plan.push_remote.is_none());
    let plan = fetch_plan("origin", &Some("fork".to_string()));
    assert_eq!(plan.push_remote, Some(vec!["fetch".to_string(), "--prune".to_string(), "fork".to_string()]));
}

#[test]
fn an_update_reports_the_new_upstream_tip() {
    assert_eq!(
        updated_message("integration", "origin/main", "abc1234", "Latest commit"),
        "Updated branch `integration` with `origin/main` (abc1234 Latest commit)"
    );
}

#[test]
fn without_a_weave_the_update_uses_git_rebase() {
    assert_eq!(fallback_rebase(true), None);
    assert_eq!(
        fallback_rebase(false),
        Some(vec![
            "rebase".to_string(),
            "--autostash".to_string(),
            "--update-refs".to_string(),
            "--rebase-merges".to_string()
        ])
    );
}

#[test]
fn submodules_are_updated_only_with_a_gitmodules_file() {
    assert_eq!(submodule_update(false), None);
    assert_eq!(
        submodule_update(true),
        Some(vec![
            "submodule".to_string(),
            "update".to_string(),
            "--init".to_string(),
            "--recursive".to_string()
        ])
    );
}

fn names(ws: &[&str]) -> Vec<String> {
    ws.iter().map(|s| s.to_string()).collect()
}

#[test]
fn each_branch_is_offered_for_removal_once() {
    let offer = removal_offer(
        &names(&["feature-x", "old", "feature-x"]),
        &names(&["closed-pr", "old", "closed-pr", "gone"]),
    );
    assert_eq!(offer.merged, names(&["feature-x", "old"]));
    assert_eq!(offer.gone, names(&["closed-pr", "gone"]));

    let offer = removal_offer(&Vec::new(), &Vec::new());
    assert!(offer.merged.is_empty() && offer.gone.is_empty());
}

#[test]
fn an_unreachable_fork_only_warns() {
    let fork = Some("fork".to_string());
    assert!(matches!(fetch_outcome(&Ok(()), &fork, true), FetchOutcome::Proceed(None)));
    assert!(matches!(fetch_outcome(&Ok(()), &fork, false), FetchOutcome::Proceed(Some(r)) if r == "fork"));
    assert!(matches!(fetch_outcome(&Ok(()), &None, false), FetchOutcome::Proceed(None)));
    let failed = fetch_outcome(&Err("could not read from remote".to_string()), &fork, true);
    assert!(matches!(failed, FetchOutcome::Failed(m) if m == "could not read from remote"));
}
