use git_loom::exe::{built_binary_for, resolve_loom_exe};

/// Whether this platform also separates path components with `\`.
fn windows() -> bool {
    std::path::MAIN_SEPARATOR == '\\'
}

/// The platform's executable suffix.
fn exe_suffix() -> &'static str {
    if windows() { ".exe" } else { "" }
}

/// A directory named exactly `name` inside `parent`.
fn named_dir_in(parent: &std::path::Path, name: &str) -> tempfile::TempDir {
    tempfile::Builder::new().prefix(name).rand_bytes(0).tempdir_in(parent).unwrap()
}

/// An empty file named exactly `name` inside `parent`.
fn named_file_in(parent: &std::path::Path, name: &str) -> tempfile::NamedTempFile {
    tempfile::Builder::new().prefix(name).rand_bytes(0).tempfile_in(parent).unwrap()
}

/// An installed binary is itself: nothing above it is a `deps` directory. The
/// path need not exist — this branch never looks at the filesystem.
#[test]
fn an_installed_binary_resolves_to_itself() {
    let exe = "/usr/local/bin/git-loom";

    assert_eq!(resolve_loom_exe(exe, exe_suffix(), windows(), false).unwrap(), exe);
}

/// A test harness resolves to the real binary one level up.
#[test]
fn a_test_harness_resolves_to_the_built_binary() {
    let dir = tempfile::tempdir().unwrap();
    let deps_dir = named_dir_in(dir.path(), "deps");
    let deps = deps_dir.path().to_path_buf();
    let built_file = named_file_in(dir.path(), &format!("git-loom{}", exe_suffix()));
    let built = built_file.path().to_path_buf();

    let harness = deps.join("git_loom-0123456789abcdef");
    let harness = harness.to_str().unwrap();
    let candidate = built_binary_for(harness, exe_suffix(), windows()).unwrap();
    let exists = std::path::Path::new(&candidate).exists();
    let resolved = resolve_loom_exe(harness, exe_suffix(), windows(), exists).unwrap();

    assert_eq!(std::path::PathBuf::from(resolved), built);
}

/// Without that binary the harness must not be offered in its place: git would
/// run it as the rebase sequence editor and get an argument parser instead.
#[test]
fn a_test_harness_without_the_built_binary_errors() {
    let dir = tempfile::tempdir().unwrap();
    let deps_dir = named_dir_in(dir.path(), "deps");
    let deps = deps_dir.path().to_path_buf();
    let harness = deps.join("git_loom-0123456789abcdef");
    let harness = harness.to_str().unwrap();
    let candidate = built_binary_for(harness, exe_suffix(), windows()).unwrap();
    let exists = std::path::Path::new(&candidate).exists();

    let err = resolve_loom_exe(harness, exe_suffix(), windows(), exists).expect_err("the built binary is missing");

    let msg = err.message();
    assert!(msg.contains("git-loom"), "unexpected error: {msg}");
    assert!(msg.contains("cargo build"), "unexpected error: {msg}");
    assert!(
        !msg.contains("git_loom-0123456789abcdef"),
        "the harness path is not the one to build: {msg}"
    );
}

/// Paths with nothing above them to inspect: a root, which has no parent at
/// all, and a bare name, whose parent is empty rather than absent.
#[test]
fn a_path_with_no_directory_above_it_resolves_to_itself() {
    for exe in ["/", "git-loom"] {
        assert_eq!(resolve_loom_exe(exe, exe_suffix(), windows(), false).unwrap(), exe, "for {}", exe);
    }
}

// ── further cases ─────────────────────────────────────────────────────────

#[test]
fn the_built_binary_stands_above_the_deps_directory() {
    assert_eq!(
        built_binary_for("/work/target/debug/deps/git_loom-0123", ".exe", false),
        Some("/work/target/debug/git-loom.exe".to_string())
    );
    assert_eq!(built_binary_for("deps/harness", "", false), Some("git-loom".to_string()));
    assert_eq!(built_binary_for("/deps/harness", "", false), Some("/git-loom".to_string()));
    assert_eq!(
        built_binary_for("/work/target/debug/deps//harness/", "", false),
        Some("/work/target/debug/git-loom".to_string())
    );
}

#[test]
fn only_a_directory_named_deps_marks_a_harness() {
    assert_eq!(built_binary_for("/work/target/debug/mydeps/harness", "", false), None);
    assert_eq!(built_binary_for("/work/deps", "", false), None);
    assert_eq!(built_binary_for("/git-loom", "", false), None);
    assert_eq!(built_binary_for("", "", false), None);
}

#[test]
fn a_harness_with_its_binary_built_resolves_to_the_binary() {
    assert_eq!(
        resolve_loom_exe("/t/deps/git_loom-1", "", false, true).unwrap(),
        "/t/git-loom"
    );
    assert_eq!(
        resolve_loom_exe("/t/deps/git_loom-1", "", false, false).unwrap_err().message(),
        "the `git-loom` binary is missing at `/t/git-loom`; run `cargo build` first"
    );
}

#[test]
fn a_backslash_separates_path_components_on_windows() {
    assert_eq!(
        built_binary_for("C:\\work\\target\\debug\\deps\\git_loom-0123.exe", ".exe", true),
        Some("C:\\work\\target\\debug\\git-loom.exe".to_string())
    );
    assert_eq!(
        built_binary_for("C:\\t\\deps/harness\\", ".exe", true),
        Some("C:\\t\\git-loom.exe".to_string())
    );
    assert_eq!(built_binary_for("C:\\t\\deps\\harness", "", false), None);
    assert_eq!(
        resolve_loom_exe("C:\\t\\deps\\h.exe", ".exe", true, false).unwrap_err().message(),
        "the `git-loom` binary is missing at `C:\\t\\git-loom.exe`; run `cargo build` first"
    );
}
