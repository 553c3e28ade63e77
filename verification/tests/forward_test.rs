use git_loom::forward::{
    add_args, add_mode, add_reports_staged_count, check_fold_forwarding, check_no_options, commit_args,
    commit_own_args, diff_args, parse_add_args,
    runs_captured, show_args, split_forwarded, AddMode, FoldOperation, ForwardError,
    ForwardingCommand,
};

fn words(ws: &[&str]) -> Vec<String> {
    ws.iter().map(|s| s.to_string()).collect()
}

#[test]
fn tokens_after_the_separator_are_forwarded_verbatim() {
    let split = split_forwarded(&words(&["ab", "--", "--stat", "-S", "x", "--", "README.md"]));
    assert_eq!(split.loom, words(&["ab"]));
    assert_eq!(split.forwarded, Some(words(&["--stat", "-S", "x", "--", "README.md"])));
}

#[test]
fn without_a_separator_nothing_is_forwarded() {
    let split = split_forwarded(&words(&["ab", "-a"]));
    assert_eq!(split.loom, words(&["ab", "-a"]));
    assert_eq!(split.forwarded, None);
    let split = split_forwarded(&words(&["--"]));
    assert!(split.loom.is_empty());
    assert_eq!(split.forwarded, Some(vec![]));
}

#[test]
fn show_places_forwarded_arguments_after_the_revision() {
    // git-loom show ab -- --stat        # git show <rev> --stat
    assert_eq!(show_args(&words(&["abc123"]), &words(&["--stat"])), words(&["show", "abc123", "--stat"]));
    // git-loom show ab -- -- README.md  # git show <rev> -- README.md
    assert_eq!(
        show_args(&words(&["abc123"]), &words(&["--", "README.md"])),
        words(&["show", "abc123", "--", "README.md"])
    );
}

#[test]
fn diff_places_forwarded_arguments_before_its_own_separator() {
    // git-loom diff f1 -- --stat        # git diff --stat -- file1.txt
    assert_eq!(
        diff_args(&[], &words(&["--stat"]), &words(&["file1.txt"])),
        words(&["diff", "--stat", "--", "file1.txt"])
    );
    // git-loom diff ab..d0 -- --name-only
    assert_eq!(
        diff_args(&words(&["ab..d0"]), &words(&["--name-only"]), &[]),
        words(&["diff", "ab..d0", "--name-only"])
    );
}

#[test]
fn commit_places_loom_arguments_last() {
    // git-loom commit -m x -- -S        # git commit -S -m x
    assert_eq!(
        commit_args(&words(&["-S"]), &words(&["-m", "x"])),
        words(&["commit", "-S", "-m", "x"])
    );
}

#[test]
fn add_places_forwarded_arguments_before_the_pathspec() {
    // git-loom add f1 -- -f             # git add -f -- file1.txt
    assert_eq!(
        add_args(&words(&["-f"]), &words(&["file1.txt"])),
        words(&["add", "-f", "--", "file1.txt"])
    );
}

#[test]
fn only_add_and_commit_step_back_and_only_outside_agent_mode() {
    for agent in [false, true] {
        for fwd in [false, true] {
            assert!(!runs_captured(ForwardingCommand::Show, fwd, agent));
            assert!(!runs_captured(ForwardingCommand::Diff, fwd, agent));
            assert!(runs_captured(ForwardingCommand::Fold, fwd, agent));
        }
    }
    assert!(runs_captured(ForwardingCommand::Add, false, false));
    assert!(!runs_captured(ForwardingCommand::Add, true, false));
    assert!(runs_captured(ForwardingCommand::Add, true, true));
    assert!(runs_captured(ForwardingCommand::Commit, false, false));
    assert!(!runs_captured(ForwardingCommand::Commit, true, false));
    assert!(runs_captured(ForwardingCommand::Commit, true, true));
    assert!(add_reports_staged_count(false));
    assert!(!add_reports_staged_count(true));
}

#[test]
fn a_whole_commit_fold_refuses_forwarded_arguments() {
    let err = check_fold_forwarding(FoldOperation::Fixup, true).unwrap_err();
    assert_eq!(err.message(), "a fixup runs no `git commit`, so it takes no arguments after `--`");
    assert!(check_fold_forwarding(FoldOperation::Fixup, false).is_ok());
    for op in [
        FoldOperation::AmendFiles,
        FoldOperation::AmendStaged,
        FoldOperation::AmendEverything,
        FoldOperation::MoveFileChanges,
        FoldOperation::UncommitFile,
        FoldOperation::Hunks,
    ] {
        assert!(check_fold_forwarding(op, true).is_ok());
    }
    for op in [
        FoldOperation::MoveCommit,
        FoldOperation::Uncommit,
        FoldOperation::CreateCommit,
        FoldOperation::Place,
    ] {
        let err = check_fold_forwarding(op, true).unwrap_err();
        assert!(err.message().contains("runs no `git commit`"));
    }
}

#[test]
fn interactive_add_refuses_forwarded_arguments() {
    let err = add_mode(true, 1, true).unwrap_err();
    assert!(matches!(err, ForwardError::InteractiveAdd));
    assert_eq!(
        err.message(),
        "staging hunks interactively takes no `git add` arguments after `--`"
    );
    // No files open the same picker.
    assert!(add_mode(false, 0, true).is_err());
    assert_eq!(add_mode(false, 0, false).unwrap(), AddMode::Interactive);
    assert_eq!(add_mode(false, 2, true).unwrap(), AddMode::Files);
}

#[test]
fn an_option_loom_does_not_define_is_refused_by_name() {
    assert!(check_no_options(&words(&["HEAD", "a.rs"])).is_ok());
    assert!(check_no_options(&[]).is_ok());
    let err = check_no_options(&words(&["HEAD", "--stat", "-U5"])).unwrap_err();
    assert!(matches!(&err, ForwardError::UnexpectedOption(o) if o == "--stat"));
    assert_eq!(
        err.message(),
        "unexpected option `--stat`\ntip: to pass it to git, put it after `--`"
    );
}

#[test]
fn add_takes_the_picker_flag_and_files() {
    let parsed = parse_add_args(&words(&["a.rs", "-p", "b.rs"]));
    assert!(parsed.patch);
    assert_eq!(parsed.files, words(&["a.rs", "b.rs"]));
    let parsed = parse_add_args(&words(&["--patch"]));
    assert!(parsed.patch);
    assert!(parsed.files.is_empty());
    let parsed = parse_add_args(&words(&["a.rs", "-f"]));
    assert!(!parsed.patch);
    assert_eq!(parsed.files, words(&["a.rs", "-f"]));
}

#[test]
fn commit_takes_only_a_message() {
    assert!(commit_own_args(&[]).unwrap().is_empty());
    assert_eq!(commit_own_args(&words(&["-m", "x"])).unwrap(), words(&["-m", "x"]));
    assert_eq!(commit_own_args(&words(&["--message", "fix it"])).unwrap(), words(&["-m", "fix it"]));
    let err = commit_own_args(&words(&["-S"])).unwrap_err();
    assert!(matches!(&err, ForwardError::UnexpectedOption(o) if o == "-S"));
    let err = commit_own_args(&words(&["x", "-n"])).unwrap_err();
    assert!(matches!(&err, ForwardError::UnexpectedOption(o) if o == "-n"));
    let err = commit_own_args(&words(&["stray"])).unwrap_err();
    assert_eq!(err.message(), "unexpected argument `stray`");
}
