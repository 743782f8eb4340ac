use boreal::database::keeper::{list, tag_targets, AccessRow, EntryRow, ListOptions, Tag, UNTAGGED_TAG_FILTER};

struct Vault {
    folders: Vec<EntryRow>,
    grants: Vec<(String, AccessRow)>,
    identities: Vec<(String, Option<String>)>,
    directory_tags: Vec<Tag>,
    keeper_tags: Vec<Tag>,
    tag_rows: Vec<(bool, String, String)>,
    records: Vec<EntryRow>,
}

fn entry(uid: &str, parent: &str, name: &str, kind: &str, path: &str, folder: bool) -> EntryRow {
    EntryRow {
        uid: uid.into(),
        is_folder: folder,
        name: name.into(),
        item_type: kind.into(),
        folder_path: path.into(),
        parent_uid: parent.into(),
        is_accessible: true,
        modified: String::new(),
        modified_ms: 0,
        attachment_count: 0,
        size_bytes: 0,
        access: vec![],
        tags: vec![],
    }
}

fn grant(folder: &str, to: &str, permissions: &str, kind: &str) -> (String, AccessRow) {
    (
        folder.into(),
        AccessRow { known: false, tags: vec![], shared_to: to.into(), permissions: permissions.into(), target_kind: kind.into() },
    )
}

fn review_tag() -> Tag {
    Tag { slug: "needs-review".into(), name: "Needs review".into() }
}

/// The rows the database holds after the vault fixture is synchronized.
fn fixture() -> Vault {
    let record = |uid: &str, title: &str, kind: &str, modified: i64, attachments: u32, folder: &str, path: &str| {
        let mut r = entry(uid, folder, title, kind, path, false);
        r.modified_ms = modified;
        r.attachment_count = attachments;
        r
    };
    Vault {
        folders: vec![
            entry("", "", "My Vault", "Vault", "/", true),
            entry("personal", "", "Personal", "Folder", "/Personal", true),
            entry("shared", "", "Operations", "Shared Folder", "/Operations", true),
            entry("nested", "shared", "Nested", "Folder in Shared Folder", "/Operations/Nested", true),
        ],
        grants: vec![grant("shared", "person@example.test", "Can Manage Users", "user")],
        identities: vec![],
        directory_tags: vec![review_tag()],
        keeper_tags: vec![review_tag()],
        tag_rows: vec![],
        records: vec![
            record("one", "Zebra", "login", 1700000000000, 2, "personal", "/Personal"),
            record("one", "Zebra", "login", 1700000000000, 2, "nested", "/Operations/Nested"),
            record("two", "Alpha", "secureNote", 1700000001000, 0, "", "/"),
        ],
    }
}

fn listed(v: &Vault, options: &ListOptions) -> Vec<EntryRow> {
    list(&v.folders, &v.grants, &v.identities, &v.directory_tags, &v.keeper_tags, &v.tag_rows, &v.records, options)
}

#[test]
fn keeper_filters_and_column_sorts() {
    let mut vault = fixture();
    let all = listed(&vault, &ListOptions { all: true, sort: "name", ..Default::default() });
    assert_eq!(all.first().unwrap().name, "Alpha");
    let desc = listed(&vault, &ListOptions { all: true, sort: "modified", descending: true, ..Default::default() });
    assert_eq!(desc.first().unwrap().uid, "two");
    let attachments = listed(&vault, &ListOptions { all: true, sort: "attachments", descending: true, ..Default::default() });
    assert_eq!(attachments.first().unwrap().attachment_count, 2);
    let filtered = listed(
        &vault,
        &ListOptions { all: true, name: "zEb", path: "nested", shared_to: "PERSON", permission: "manage", ..Default::default() },
    );
    assert_eq!(filtered.len(), 1);
    for sort in ["name", "path", "type", "modified", "attachments", "size", "shared", "permission"] {
        let asc = listed(&vault, &ListOptions { all: true, sort, ..Default::default() });
        let mut desc = listed(&vault, &ListOptions { all: true, sort, descending: true, ..Default::default() });
        desc.reverse();
        assert_eq!(
            asc.iter().map(|e| (&e.uid, &e.parent_uid)).collect::<Vec<_>>(),
            desc.iter().map(|e| (&e.uid, &e.parent_uid)).collect::<Vec<_>>()
        );
    }
    let (_, records) = tag_targets(&vec![], &vec!["one".to_string()]).unwrap();
    for uid in records {
        vault.tag_rows.push((false, uid, "needs-review".into()));
    }
    let untagged = listed(&vault, &ListOptions { all: true, tag: UNTAGGED_TAG_FILTER, ..Default::default() });
    assert!(untagged.iter().all(|e| e.uid != "one"));
    let excluded = listed(&vault, &ListOptions { all: true, tag: "!needs-review", ..Default::default() });
    assert!(excluded.iter().all(|e| e.uid != "one"));
}

#[test]
fn keeper_user_tags_resolve_aliases_and_filter_permission_identities() {
    let mut vault = fixture();
    vault.identities = vec![
        ("primary@example.test".into(), Some("needs-review".into())),
        ("person@example.test".into(), Some("needs-review".into())),
    ];
    vault.grants = vec![
        grant("shared", "(Team User) primary@example.test", "Read Only", "team-user"),
        grant("personal", "person@example.test", "Read Only", "team"),
        grant("shared", "PERSON@EXAMPLE.TEST", "Can Manage Users", "user"),
    ];
    let matched = listed(&vault, &ListOptions { all: true, user_tag: "needs-review", ..Default::default() });
    assert_eq!(matched.len(), 3);
    assert!(matched.iter().all(|entry| entry.access.iter().all(|access| access.known && access.tags[0].slug == "needs-review")));
    let excluded = listed(&vault, &ListOptions { all: true, user_tag: "!needs-review", ..Default::default() });
    assert!(excluded.iter().any(|entry| entry.uid == "personal"));
    assert!(excluded.iter().all(|entry| !entry.access.iter().any(|a| !a.tags.is_empty())));
    assert!(listed(
        &vault,
        &ListOptions { all: true, user_tag: "needs-review", permission: "no-such-permission", ..Default::default() }
    )
    .is_empty());
}
