use boreal::database::drive_history::page;
use boreal::database::google_groups::{aliases_of, check_snapshot, summary};
use boreal::database::keeper::{folder_locations, AccessRow, EntryRow};
use boreal::google::groups::{Group, Member, Snapshot};

#[test]
fn listing_pages_stay_within_the_rows() {
    assert_eq!(page(0, 50, 20), (0, 20));
    assert_eq!(page(45, 100, 20), (40, 20));
    assert_eq!(page(45, 20, 20), (20, 20));
    assert_eq!(page(10, 3, 0), (3, 1));
    assert_eq!(page(1000, 999, 500), (800, 200));
}

#[test]
fn group_counts_belong_to_the_account() {
    let groups = vec![("me".to_string(), false), ("me".to_string(), true), ("other".to_string(), true)];
    let members = vec![("me".to_string(), false), ("other".to_string(), false)];
    let s = summary("me", &groups, &members, &vec![("other".into(), "t0".into()), ("me".into(), "t1".into())]);
    assert_eq!((s.groups, s.members, s.restricted), (2, 1, 1));
    assert_eq!(s.completed_at, "t1");
    assert_eq!(summary("none", &groups, &members, &vec![]).completed_at, "");
}

#[test]
fn snapshots_are_atomic_isolated_and_distinguish_restricted_lists() {
    let mut snapshot = Snapshot {
        account: "me@example.test".into(),
        groups: vec![Group {
            id: "g1".into(),
            email: "team@example.test".into(),
            aliases: vec!["z@example.test".into(), "a@example.test".into()],
            non_editable_aliases: vec!["a@example.test".into()],
            members: vec![Member { id: "m1".into(), email: "member@example.test".into(), role: "OWNER".into(), ..Default::default() }],
            ..Default::default()
        }],
    };
    let aliases = check_snapshot(&snapshot).unwrap();
    assert_eq!(aliases[0], vec!["a@example.test", "z@example.test"]);
    assert_eq!(aliases_of(&snapshot.groups[0]), aliases[0]);
    snapshot.groups[0].members_unavailable = true;
    assert_eq!(check_snapshot(&snapshot).unwrap_err(), "Invalid Google Groups report");
    snapshot.groups[0].members_unavailable = false;
    snapshot.groups[0].members[0].id.clear();
    assert_eq!(check_snapshot(&snapshot).unwrap_err(), "Google Groups member ID is missing");
    snapshot.account.clear();
    assert_eq!(check_snapshot(&snapshot).unwrap_err(), "Google Groups account is missing");
}

fn folder(uid: &str, path: &str, accessible: bool, kind: &str) -> EntryRow {
    EntryRow {
        uid: uid.into(),
        is_folder: true,
        name: uid.into(),
        item_type: kind.into(),
        folder_path: path.into(),
        parent_uid: String::new(),
        is_accessible: accessible,
        modified: String::new(),
        modified_ms: 0,
        attachment_count: 0,
        size_bytes: 0,
        access: vec![],
        tags: vec![],
    }
}

fn grant(to: &str, permissions: &str) -> AccessRow {
    AccessRow { known: false, tags: vec![], shared_to: to.into(), permissions: permissions.into(), target_kind: "user".into() }
}

#[test]
fn keeper_overview_counts_and_locations() {
    let folders = vec![
        folder("", "/", true, "Vault"),
        folder("f1", "/b", true, "Shared Folder"),
        folder("f2", "/A", true, "Nested Shared Folder"),
        folder("f3", "/c", false, "Shared Folder"),
    ];
    let grants = vec![
        ("f1".to_string(), grant("x@example.test", "Can Manage Users")),
        ("f1".to_string(), grant("y@example.test", "Read Only")),
        ("f2".to_string(), grant("x@example.test", "can manage records")),
        ("f3".to_string(), grant("z@example.test", "Manage")),
    ];
    let records = vec![folder("r1", "", true, "login"), folder("r2", "", false, "login")];
    let s = boreal::database::keeper::summary(&folders, &grants, &records, Some("2024-01-01".into()));
    assert_eq!((s.shared_folders, s.folders, s.records, s.shared_with, s.managed_folders), (2, 2, 1, 2, 2));
    assert_eq!(s.completed_at, "2024-01-01");
    let locations = folder_locations(&folders);
    assert_eq!(locations.iter().map(|l| l.path.as_str()).collect::<Vec<_>>(), vec!["/", "/A", "/b"]);
}
