use git_loom::hunks::{entry, hunk, listed_entries, selected_paths, HunkOrigin};
use git_loom::targets::{diff_selection, filter, ChangedFiles, FileId};

/// The working tree of a repository with changes to `a.rs` and `dir/b.rs`,
/// as the status display shows it: the changed paths and their short IDs.
fn repo_with_changes() -> ChangedFiles {
    ChangedFiles {
        paths: vec!["a.rs".to_string(), "dir/b.rs".to_string()],
        ids: vec![
            FileId { short_id: "ar".to_string(), path: "a.rs".to_string() },
            FileId { short_id: "db".to_string(), path: "dir/b.rs".to_string() },
        ],
    }
}

fn message(err: git_loom::targets::TargetError) -> String {
    err.message()
}

#[test]
fn no_files_means_every_change() {
    assert_eq!(filter(&repo_with_changes(), &[]).unwrap(), None);
}

#[test]
fn zz_means_every_change_even_beside_a_path() {
    let test_repo = repo_with_changes();
    assert_eq!(filter(&test_repo, &["zz"]).unwrap(), None);
    assert_eq!(filter(&test_repo, &["a.rs", "zz"]).unwrap(), None);
}

#[test]
fn paths_resolve_to_themselves_including_below_the_root() {
    let filtered = filter(&repo_with_changes(), &["a.rs", "dir/b.rs"]).unwrap();
    assert_eq!(
        filtered,
        Some(vec!["a.rs".to_string(), "dir/b.rs".to_string()])
    );
}

#[test]
fn an_argument_naming_nothing_is_refused() {
    let err = message(filter(&repo_with_changes(), &["nope.rs"]).unwrap_err());
    assert!(err.contains("nope.rs"), "{err}");
}

/// The rationale for resolving once: a short ID names what is changed now.
#[test]
fn a_short_id_resolves_to_its_path() {
    let test_repo = repo_with_changes();
    let short_id = test_repo.ids[0].short_id.clone();
    assert_ne!(short_id, "a.rs", "the test needs a real short ID");
    assert_eq!(
        filter(&test_repo, &[short_id.as_str()]).unwrap(),
        Some(vec!["a.rs".to_string()])
    );
}

#[test]
fn a_file_with_no_selected_hunk_is_not_folded() {
    let entries = vec![entry(
        "a.rs",
        vec![
            hunk(HunkOrigin::Unstaged, false),
            hunk(HunkOrigin::Staged, false),
        ],
    )];
    assert!(selected_paths(&entries).is_empty());
}

/// A staged hunk left selected is a choice the picker offered and the user kept,
/// so its path belongs in the fold.
#[test]
fn a_kept_staged_hunk_is_folded() {
    let entries = vec![entry("a.rs", vec![hunk(HunkOrigin::Staged, true)])];
    assert_eq!(selected_paths(&entries), vec!["a.rs".to_string()]);
}

/// The whole point of the fix: a staged change the picker has no hunk for — a
/// mode-only one — never reaches the listing, so nobody can pick it and the
/// fold cannot name it.
#[test]
fn a_mode_only_staged_change_is_not_listed() {
    // `m.sh` had only its mode changed and staged: its diff has no hunk.
    let mut mode_only = entry("m.sh", vec![]);
    mode_only.worktree_status = ' ';
    let entries = listed_entries(vec![
        entry("a.rs", vec![hunk(HunkOrigin::Unstaged, false)]),
        mode_only,
        entry("dir/b.rs", vec![hunk(HunkOrigin::Unstaged, false)]),
    ]);

    let paths: Vec<&str> = entries.iter().map(|e| e.path.as_str()).collect();
    assert!(!paths.contains(&"m.sh"), "{paths:?}");
    assert!(
        paths.contains(&"a.rs"),
        "the other changes are still listed"
    );
    assert_eq!(paths, vec!["a.rs", "dir/b.rs"]);
}

#[test]
fn only_the_picked_files_are_folded_and_order_is_kept() {
    let entries = vec![
        entry("a.rs", vec![hunk(HunkOrigin::Unstaged, true)]),
        entry("b.rs", vec![hunk(HunkOrigin::Unstaged, false)]),
        entry(
            "c.rs",
            vec![
                hunk(HunkOrigin::Staged, false),
                hunk(HunkOrigin::Unstaged, true),
            ],
        ),
    ];
    assert_eq!(
        selected_paths(&entries),
        vec!["a.rs".to_string(), "c.rs".to_string()]
    );
}

// ── further cases ─────────────────────────────────────────────────────────

#[test]
fn hunk_and_entry_build_the_fixture_values() {
    let h = hunk(HunkOrigin::Staged, true);
    assert_eq!(h.hunk.text, "@@ -1 +1 @@\n-a\n+b\n");
    assert_eq!(h.hunk.modified_lines, vec![1]);
    assert!(h.selected);
    assert_eq!(h.origin, HunkOrigin::Staged);
    let e = entry("x.rs", vec![h]);
    assert_eq!(e.path, "x.rs");
    assert_eq!(e.index_status, 'M');
    assert_eq!(e.worktree_status, 'M');
    assert!(!e.binary);
    assert_eq!(e.hunks.len(), 1);
}

#[test]
fn a_file_with_no_hunks_is_not_folded() {
    let entries = vec![entry("a.rs", vec![]), entry("b.rs", vec![hunk(HunkOrigin::Unstaged, true)])];
    assert_eq!(selected_paths(&entries), vec!["b.rs".to_string()]);
}

#[test]
fn every_argument_naming_nothing_is_reported() {
    let err = message(filter(&repo_with_changes(), &["a.rs", "gone.rs", "other.rs"]).unwrap_err());
    assert_eq!(err, "`gone.rs`, `other.rs` are neither changed files nor short IDs of them");
    let err = message(filter(&repo_with_changes(), &["nope.rs"]).unwrap_err());
    assert_eq!(err, "`nope.rs` is neither a changed file nor the short ID of one");
}

#[test]
fn paths_and_short_ids_mix_in_argument_order() {
    let filtered = filter(&repo_with_changes(), &["db", "a.rs"]).unwrap();
    assert_eq!(filtered, Some(vec!["dir/b.rs".to_string(), "a.rs".to_string()]));
}

#[test]
fn an_unchanged_file_names_nothing() {
    // `README.md` may well exist, but nothing of it is changed.
    let err = filter(&repo_with_changes(), &["README.md"]).unwrap_err();
    assert!(message(err).contains("`README.md`"));
}

#[test]
fn only_changed_paths_are_taken() {
    let changes = repo_with_changes();
    for args in [vec!["ar"], vec!["db", "a.rs"], vec!["dir/b.rs", "ar", "db"]] {
        for path in filter(&changes, &args).unwrap().unwrap() {
            assert!(changes.paths.contains(&path), "{path}");
        }
    }
}

fn words(ws: &[&str]) -> Vec<String> {
    ws.iter().map(|s| s.to_string()).collect()
}

#[test]
fn diff_targets_limit_the_diff_and_the_rest_are_revisions() {
    let changes = repo_with_changes();
    let sel = diff_selection(&changes, &words(&["HEAD~2", "db", "main", "a.rs"]));
    assert_eq!(sel.revisions, words(&["HEAD~2", "main"]));
    assert_eq!(sel.paths, words(&["dir/b.rs", "a.rs"]));

    let sel = diff_selection(&changes, &words(&["HEAD", "zz", "ar"]));
    assert_eq!(sel.revisions, words(&["HEAD"]));
    assert_eq!(sel.paths, words(&["a.rs", "dir/b.rs"]));

    let sel = diff_selection(&changes, &words(&["v1.0", "v2.0"]));
    assert_eq!(sel.revisions, words(&["v1.0", "v2.0"]));
    assert!(sel.paths.is_empty());

    let sel = diff_selection(&changes, &Vec::new());
    assert!(sel.revisions.is_empty() && sel.paths.is_empty());
}
