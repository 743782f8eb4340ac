use boreal::database::local_file_history::diff;
use boreal::local_files::Item;

fn item(path: &str, identity: &str) -> Item {
    Item {
        root_path: "/root".into(),
        relative_path: path.into(),
        name: path.into(),
        file_identity: identity.into(),
        modified_nanos: Some(0),
        ..Item::default()
    }
}

#[test]
fn baseline_precision_enrichment_is_not_a_file_change() {
    let mut a = item("a", "");
    a.modified_nanos = None;
    let mut b = a.clone();
    b.modified_nanos = Some(123);
    b.file_identity = "device:inode".into();
    assert!(diff(vec![a], vec![b], false).is_empty());
}

#[test]
fn recognizes_moves_when_paths_are_swapped() {
    let before = vec![item("a", "1"), item("b", "2")];
    let after = vec![item("b", "1"), item("a", "2")];
    let changes = diff(before, after, true);
    assert_eq!(changes.len(), 2);
    assert!(changes.iter().all(|c| c.kind == "Moved"));
}

#[test]
fn detects_changes_moves_and_deletions_without_confusing_hard_links() {
    let before = vec![
        item("changed", "1"),
        item("old", "2"),
        item("deleted", "3"),
        item("hard-a", "4"),
        item("hard-b", "4"),
    ];
    let mut changed = item("changed", "1");
    changed.modified_nanos = Some(1);
    let after = vec![
        changed,
        item("new", "2"),
        item("added", "5"),
        item("hard-c", "4"),
        item("hard-b", "4"),
    ];
    let changes = diff(before, after, true);
    assert_eq!(changes.iter().filter(|c| c.kind == "Moved").count(), 1);
    assert_eq!(changes.iter().filter(|c| c.kind == "Deleted").count(), 2);
    assert_eq!(changes.iter().filter(|c| c.kind == "Added").count(), 2);
    assert!(changes.iter().any(|c| c.kind == "Changed" && c.detail == "Modified time"));
}

#[test]
fn checksum_availability_is_not_a_change_and_scope_removal_is_not_deletion() {
    let a = item("a", "");
    let mut b = a.clone();
    b.checksum_sha256 = "hash".into();
    assert!(diff(vec![a.clone()], vec![b], true).is_empty());
    assert_eq!(diff(vec![a], vec![], false)[0].kind, "Removed from index");
}

#[test]
fn detects_unique_checksum_moves_but_not_ambiguous_copies() {
    let mut a = item("a", "");
    a.checksum_sha256 = "hash".into();
    let mut b = a.clone();
    b.relative_path = "b".into();
    assert_eq!(diff(vec![a.clone()], vec![b.clone()], true)[0].kind, "Moved");
    assert_eq!(diff(vec![a.clone()], vec![a, b], true)[0].kind, "Added");
}

#[test]
fn comparing_a_snapshot_with_itself_finds_no_change() {
    let items = vec![item("a", "1"), item("b", "2"), item("c", "")];
    assert!(diff(items.clone(), items, true).is_empty());
}

#[test]
fn changes_are_ordered_by_path() {
    let before = vec![item("z", "9"), item("m", "8")];
    let after = vec![item("b", "7")];
    let changes = diff(before, after, true);
    let paths: Vec<String> = changes
        .iter()
        .map(|c| c.after.as_ref().or(c.before.as_ref()).unwrap().relative_path.clone())
        .collect();
    assert_eq!(paths, vec!["b", "m", "z"]);
}

#[test]
fn several_changed_fields_are_listed_together() {
    let a = item("a", "1");
    let mut b = a.clone();
    b.size_bytes = 10;
    b.modified_unix = 5;
    let changes = diff(vec![a], vec![b], true);
    assert_eq!(changes.len(), 1);
    assert_eq!(changes[0].kind, "Changed");
    assert_eq!(changes[0].detail, "Indexed size, Modified time");
}
