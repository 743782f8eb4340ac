use boreal::keeper::client::{
    command_path, default_command, installed_commander, is_python_name, python_names, report_status, searched_on_path, shebang_interpreter,
    validate_snapshot, SESSION_REQUIRED, CommandPath, FolderAccess, Membership, Record, SharedFolder,
    SnapshotError, VaultSnapshot,
};

fn safe() -> VaultSnapshot {
    VaultSnapshot {
        schema_version: 1,
        folders: vec![SharedFolder {
            folder_uid: String::new(),
            parent_uid: String::new(),
            name: "My Vault".into(),
            folder_type: "Vault".into(),
            folder_path: "/".into(),
            access: vec![],
        }],
        records: vec![Record {
            record_uid: "one".into(),
            title: "Title".into(),
            record_type: "login".into(),
            modified_ms: 0,
            version: 3,
            attachment_count: 0,
            size_bytes: 0,
        }],
        memberships: vec![Membership { folder_uid: String::new(), record_uid: "one".into() }],
    }
}

#[test]
fn metadata_reports_are_checked_and_errors_never_quote_them() {
    assert!(validate_snapshot(&safe()).is_ok());
    let mut invalid = safe();
    invalid.schema_version = 2;
    assert!(validate_snapshot(&invalid).is_err());
    let mut invalid = safe();
    invalid.records[0].record_uid = "bad&uid".into();
    invalid.memberships[0].record_uid = "bad&uid".into();
    let error = validate_snapshot(&invalid).unwrap_err();
    assert_eq!(error, SnapshotError::InvalidIdentifier);
    assert!(!error.message().contains("bad&uid"));
}

#[test]
fn expands_a_user_relative_commander_path() {
    match command_path("~/.boreal/keeper-env/bin/keeper").unwrap() {
        CommandPath::Home(relative) => {
            assert!(relative.ends_with(".boreal/keeper-env/bin/keeper"));
            assert!(!relative.starts_with('~'));
        },
        CommandPath::Given(p) => panic!("not expanded: {p}"),
    }
    assert!(matches!(command_path("/usr/bin/keeper").unwrap(), CommandPath::Given(p) if p == "/usr/bin/keeper"));
    assert!(command_path("   ").is_err());
}

#[test]
fn records_must_be_placed_and_folders_must_reach_the_root() {
    let mut missing = safe();
    missing.memberships.clear();
    assert_eq!(validate_snapshot(&missing).unwrap_err(), SnapshotError::MissingMemberships);
    let mut orphan = safe();
    orphan.folders.push(SharedFolder {
        folder_uid: "f1".into(),
        parent_uid: "nowhere".into(),
        name: "F".into(),
        folder_type: "Shared Folder".into(),
        folder_path: "/F".into(),
        access: vec![FolderAccess { shared_to: "a@example.test".into(), permissions: "Can Edit".into(), target_kind: "user".into() }],
    });
    assert_eq!(validate_snapshot(&orphan).unwrap_err(), SnapshotError::MissingParent);
    let mut cycle = safe();
    for (uid, parent) in [("a", "b"), ("b", "a")] {
        cycle.folders.push(SharedFolder {
            folder_uid: uid.into(),
            parent_uid: parent.into(),
            name: uid.into(),
            folder_type: "Folder".into(),
            folder_path: uid.into(),
            access: vec![],
        });
    }
    assert_eq!(validate_snapshot(&cycle).unwrap_err(), SnapshotError::Cycle);
}

#[test]
fn the_default_commander_is_the_installed_one() {
    assert_eq!(default_command(Some("/opt/boreal/bin"), true, false), "/opt/boreal/bin/keeper");
    assert_eq!(default_command(Some("/opt/boreal/bin"), false, false), "keeper");
    assert_eq!(default_command(None, false, false), "keeper");
    assert_eq!(default_command(None, true, true), "keeper.exe");
    assert_eq!(installed_commander("/opt/boreal/bin", false), "/opt/boreal/bin/keeper");
}

#[test]
fn report_exit_code_two_asks_for_a_session() {
    assert_eq!(report_status(Some(2), false), Err(SESSION_REQUIRED));
    assert_eq!(
        report_status(Some(1), false),
        Err("Keeper metadata report failed. Verify the session and use a Python/pipx installation of Keeper Commander.")
    );
    assert_eq!(report_status(None, false).is_err(), true);
    assert_eq!(report_status(Some(0), true), Ok(()));
}

#[test]
fn commander_python_rules() {
    assert!(searched_on_path("keeper"));
    assert!(!searched_on_path("bin/keeper"));
    assert!(!searched_on_path("/usr/local/bin/keeper"));
    assert_eq!(python_names(), vec!["python", "python3", "python.exe"]);
    assert_eq!(shebang_interpreter("#!  /opt/venv/bin/python3 \r\nimport sys\n"), Some("/opt/venv/bin/python3".to_string()));
    assert_eq!(shebang_interpreter("import sys\n#!/usr/bin/python"), None);
    assert_eq!(shebang_interpreter(""), None);
    assert!(is_python_name("python3.12"));
    assert!(!is_python_name("pypy"));
}
