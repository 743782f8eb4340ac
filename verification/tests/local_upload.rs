use boreal::database::local_migration::Entry;
use boreal::rclone::local_upload::{
    check_entry, check_type, copy_file_arguments, copy_listed_arguments, copy_source, mkdir_arguments, symlink_error,
    upload_failure, validate_sources, PathAction, PathCheck, PathEvent, PathFacts, PathStage,
};

fn entry(path: &str, directory: bool) -> Entry {
    Entry { root_path: "/data".into(), relative_path: path.into(), is_directory: directory }
}

#[test]
fn saved_file_lists_must_exist_and_pass_their_checks() {
    assert!(validate_sources(&vec![vec![Ok(())], vec![Ok(()), Ok(())]]).is_ok());
    assert_eq!(
        validate_sources(&vec![vec![Ok(())], vec![]]).unwrap_err(),
        "The local migration has no saved file list. Create a new plan."
    );
    assert_eq!(validate_sources(&vec![vec![Ok(()), Err("first".into()), Err("second".into())]]).unwrap_err(), "first");
}

#[test]
fn local_upload_rejects_missing_sources_and_symlink_ancestors() {
    assert_eq!(check_entry(&entry("folder/missing", false)).unwrap(), vec!["folder", "missing"]);
    assert_eq!(check_entry(&entry("../escape", false)).unwrap_err(), "Invalid indexed local path; update Local Files metadata");
    let relative_root = Entry { root_path: "data".into(), relative_path: "a".into(), is_directory: false };
    assert_eq!(check_entry(&relative_root).unwrap_err(), "Invalid local migration root");
    assert!(symlink_error("/data/folder/link").contains("symbolic link"));
    assert!(check_type(false, false, true, "/p").is_ok());
    assert_eq!(check_type(true, false, true, "/p").unwrap_err(), "Local source changed type: /p. Reindex and create a new plan.");
    assert!(check_type(false, false, false, "/p").is_err());
}

#[test]
fn folder_uploads_list_files_and_create_only_empty_leaf_folders() {
    let entries = vec![entry("source", true), entry("source/empty", true), entry("source/empty/nested", true), entry("source/#file with space.txt", false)];
    let paths = vec![
        "/data/source".to_string(),
        "/data/source/empty".to_string(),
        "/data/source/empty/nested".to_string(),
        "/data/source/#file with space.txt".to_string(),
    ];
    let plan = copy_source("source", true, &entries, &paths, "/data/source", "", "dest").unwrap();
    assert_eq!(plan.destination, "my-drive-rw,root_folder_id=dest:source");
    assert!(!plan.single_file);
    assert_eq!(plan.files, vec!["#file with space.txt"]);
    assert_eq!(plan.folders, vec!["my-drive-rw,root_folder_id=dest:source/empty/nested"]);
}

#[test]
fn file_uploads_and_missing_sources() {
    let entries = vec![entry("a.txt", false)];
    let paths = vec!["/data/a.txt".to_string()];
    let plan = copy_source("a.txt", false, &entries, &paths, "/data/a.txt", "d", "f").unwrap();
    assert!(plan.single_file);
    assert_eq!(plan.destination, "my-drive-rw,team_drive=d,root_folder_id=f:a.txt");
    assert_eq!(
        copy_source("a.txt", false, &entries, &paths, "/data/b.txt", "d", "f").unwrap_err(),
        "The selected local source is missing from its saved file list"
    );
    assert_eq!(copy_source("a.txt", false, &vec![], &vec![], "/data/a.txt", "d", "f").unwrap_err(), "Local migration file list is empty");
    let entries = vec![entry("s", true), entry("t/x", false)];
    let paths = vec!["/data/s".to_string(), "/data/t/x".to_string()];
    assert_eq!(copy_source("s", true, &entries, &paths, "/data/s", "", "f").unwrap_err(), "A saved file is outside the selected folder");
}

#[test]
fn upload_commands_never_follow_links() {
    assert_eq!(
        copy_file_arguments("/data/a.txt", "remote:a.txt", "/c", true),
        vec!["copyto", "/data/a.txt", "remote:a.txt", "--config", "/c", "--copy-links=false", "--links=false", "--immutable"]
    );
    assert_eq!(
        copy_listed_arguments("/data/s", "remote:s", "/tmp/m", "/c", false),
        vec!["copy", "/data/s", "remote:s", "--files-from0", "/tmp/m", "--no-traverse", "--config", "/c", "--copy-links=false", "--links=false"]
    );
    assert_eq!(mkdir_arguments("remote:s/e", "/c"), vec!["mkdir", "remote:s/e", "--config", "/c", "--copy-links=false", "--links=false"]);
    assert_eq!(upload_failure("  denied\n"), "Local upload failed: denied");
}

fn plain(is_dir: bool) -> PathEvent {
    PathEvent::Inspected(Ok(PathFacts { is_symlink: false, is_dir, is_file: !is_dir }))
}

#[test]
fn saved_paths_are_walked_without_following_new_links() {
    let (check, action) = PathCheck::start(&entry("docs/a.txt", false));
    assert!(matches!(action, PathAction::Resolve(ref r) if r == "/data"));
    let (check, action) = check.step(PathEvent::Resolved(Ok("/real/data".into())));
    assert!(matches!(action, PathAction::Inspect(ref p) if p == "/real/data/docs"));
    let (check, action) = check.step(plain(true));
    assert!(matches!(action, PathAction::Inspect(ref p) if p == "/real/data/docs/a.txt"));
    let (check, action) = check.step(plain(false));
    assert_eq!(check.stage, PathStage::Final);
    assert!(matches!(action, PathAction::Inspect(ref p) if p == "/real/data/docs/a.txt"));
    let (_, action) = check.step(plain(false));
    assert!(matches!(action, PathAction::Finish(Ok(ref p)) if p == "/real/data/docs/a.txt"));

    let (check, _) = PathCheck::start(&entry("docs/a.txt", false));
    let (check, _) = check.step(PathEvent::Resolved(Ok("/real/data".into())));
    let (_, action) = check.step(PathEvent::Inspected(Ok(PathFacts { is_symlink: true, is_dir: false, is_file: false })));
    assert!(matches!(action, PathAction::Finish(Err(ref m))
        if m == "Local source became a symbolic link: /real/data/docs. Reindex and create a new plan."));

    let (check, _) = PathCheck::start(&entry("a.txt", false));
    let (check, _) = check.step(PathEvent::Resolved(Ok("/real".into())));
    let (check, _) = check.step(plain(false));
    let (_, action) = check.step(plain(true));
    assert!(matches!(action, PathAction::Finish(Err(ref m)) if m.starts_with("Local source changed type: /real/a.txt")));

    let (_, action) = PathCheck::start(&entry("../escape", false));
    assert!(matches!(action, PathAction::Finish(Err(ref m)) if m == "Invalid indexed local path; update Local Files metadata"));
}
