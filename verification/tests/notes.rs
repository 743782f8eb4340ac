use boreal::web::notes::{check_delete, check_save, check_targets, delete_outcome, edit_outcome, Delete, Save, Target, BAD_REQUEST, CONFLICT};

fn target(kind: &str, key: &str) -> Target {
    Target { kind: kind.into(), key: key.into() }
}

#[test]
fn note_targets_have_a_known_kind_and_a_key() {
    assert!(target("drive", "a").valid());
    assert!(target("keeper-record", "x").valid());
    assert!(!target("unknown", "a").valid());
    assert!(!target("drive", "   ").valid());
    assert!(!target("drive", &"k".repeat(8193)).valid());
    assert!(check_targets(&vec![target("local", "p")]).is_ok());
    assert_eq!(check_targets(&vec![target("local", "p"); 201]).unwrap_err(), (BAD_REQUEST, "Invalid note targets.".to_string()));
}

#[test]
fn edits_validate_target_revision_and_body() {
    let save = |body: &str| Save { target: target("drive", "a"), id: None, revision: None, body: body.into() };
    assert!(check_save(&save("First")).is_ok());
    assert_eq!(check_save(&save("  ")).unwrap_err().0, BAD_REQUEST);
    assert_eq!(check_save(&save(&"x".repeat(65537))).unwrap_err().1, "Enter a note between 1 and 65,536 bytes.");
    assert!(check_save(&save(&"x".repeat(65536))).is_ok());
    assert_eq!(edit_outcome(0).unwrap_err().0, CONFLICT);
    assert!(edit_outcome(1).is_ok());
}

#[test]
fn deletions_check_target_and_revision() {
    let delete = |id, revision| Delete { target: target("drive", "a"), id, revision };
    assert!(check_delete(&delete(1, 1)).is_ok());
    assert_eq!(check_delete(&delete(0, 1)).unwrap_err(), (BAD_REQUEST, "Invalid note selection.".to_string()));
    assert!(check_delete(&delete(1, 0)).is_err());
    assert_eq!(
        delete_outcome(0).unwrap_err(),
        (CONFLICT, "This note changed or was deleted in another window. Reload before trying again.".to_string())
    );
}
