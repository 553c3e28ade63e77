use git_loom::status::status_paths;

#[test]
fn each_record_names_its_path() {
    assert_eq!(
        status_paths(" M a.rs\0?? dir/new.rs\0A  b.rs\0"),
        vec!["a.rs".to_string(), "dir/new.rs".to_string(), "b.rs".to_string()]
    );
}

#[test]
fn a_rename_names_its_new_path_only() {
    assert_eq!(
        status_paths("R  new.rs\0old.rs\0 M c.rs\0"),
        vec!["new.rs".to_string(), "c.rs".to_string()]
    );
    assert_eq!(status_paths("C  copy.rs\0orig.rs\0"), vec!["copy.rs".to_string()]);
}

#[test]
fn empty_and_short_records_name_nothing() {
    assert!(status_paths("").is_empty());
    assert!(status_paths("\0\0").is_empty());
    assert_eq!(status_paths("?? x\0\0 M\0 M y"), vec!["x".to_string(), "y".to_string()]);
}
