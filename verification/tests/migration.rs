use boreal::rclone::migration::{
    check_names, copy_failure, copy_source, destination_drive, destination_remote, source_remote,
    validate_destination, ChainAction, FolderChain, GoogleDriveFolder, MigrationSource, SharedDrive,
};

#[test]
fn shared_drive_copy_uses_source_drive_and_independent_destination() {
    assert_eq!(
        source_remote("shared-drive", "shared-drive:source_1", "Research/Folder").unwrap(),
        "my-drive-ro,team_drive=source_1:Research/Folder"
    );
    assert_eq!(destination_remote("target_2", "folder_3"), "my-drive-rw,team_drive=target_2,root_folder_id=folder_3:");
    assert_eq!(destination_remote("", "personal_folder"), "my-drive-rw,root_folder_id=personal_folder:");
    assert!(source_remote("shared-drive", "shared-drive:bad,token=value", "Folder").is_err());
    assert_eq!(source_remote("shared-with-me", "shared-with-me", "Folder").unwrap(), "my-drive-ro,shared_with_me=true:Folder");
}

#[test]
fn folder_copies_keep_empty_folders_and_files_use_copyto() {
    let folder = MigrationSource { name: "Reports".into(), relative_path: "Team/Reports".into(), is_directory: true };
    let args = copy_source("my-drive", "my-drive", &folder, "", "dest", true, "/c/rclone.conf").unwrap();
    assert_eq!(
        args,
        vec![
            "copy",
            "my-drive-ro:Team/Reports",
            "my-drive-rw,root_folder_id=dest:Reports",
            "--drive-server-side-across-configs",
            "--config",
            "/c/rclone.conf",
            "--immutable",
            "--create-empty-src-dirs"
        ]
    );
    let file = MigrationSource { name: "a.txt".into(), relative_path: "a.txt".into(), is_directory: false };
    let args = copy_source("my-drive", "my-drive", &file, "d1", "f1", false, "/c").unwrap();
    assert_eq!(args[0], "copyto");
    assert_eq!(args.len(), 6);
    assert_eq!(copy_failure("a.txt", "  boom \n"), "Rclone could not copy 'a.txt': boom");
}

#[test]
fn top_level_names_must_be_unique_and_new() {
    assert!(check_names(&vec!["a".into(), "b".into()], &vec!["c".into()], false).is_ok());
    assert!(check_names(&vec!["a".into(), "a".into()], &vec![], true).is_err());
    assert!(check_names(&vec!["a".into()], &vec!["a".into()], false).is_err());
    assert!(check_names(&vec!["a".into()], &vec!["a".into()], true).is_ok());
}

fn folder(id: &str, name: &str, drive: &str, parents: &[&str]) -> GoogleDriveFolder {
    GoogleDriveFolder {
        id: id.into(),
        name: name.into(),
        drive_id: drive.into(),
        parents: parents.iter().map(|p| p.to_string()).collect(),
    }
}

#[test]
fn destinations_are_checked_against_the_readable_shared_drives() {
    let drives = vec![SharedDrive { id: "d1".into(), name: "Team".into() }];
    let mine = folder("f", "Mine", "", &["root"]);
    assert_eq!(
        destination_drive(&drives, &mine, true).unwrap_err(),
        "My Drive migrations require a Shared Drive destination folder"
    );
    assert_eq!(destination_drive(&drives, &mine, false).unwrap(), "");
    let other = folder("f", "X", "d9", &["d9"]);
    assert!(destination_drive(&drives, &other, false).unwrap_err().contains("not available"));
    assert!(destination_drive(&vec![], &other, false).unwrap_err().contains("cannot access any Shared Drives"));
    let top = folder("d1", "ignored", "d1", &[]);
    let d = validate_destination(&drives, &top, true, vec![]).unwrap();
    assert_eq!(d.drive_name, "Team");
    assert_eq!(d.folder_name, "Team");
    assert_eq!(d.folder_id, "d1");
}

#[test]
fn the_walk_up_stops_at_the_shared_drive_and_lists_top_down() {
    let (chain, action) = FolderChain::start(folder("c", "C", "d1", &["b"]), "d1".into());
    let parent = match action {
        ChainAction::Fetch(id) => id,
        other => panic!("unexpected {other:?}"),
    };
    assert_eq!(parent, "b");
    let (chain, action) = chain.step(folder("b", "B", "d1", &["d1"]));
    match action {
        ChainAction::Done(folders) => {
            let names: Vec<String> = folders.iter().map(|f| f.name.clone()).collect();
            assert_eq!(names, vec!["B", "C"]);
        },
        other => panic!("unexpected {other:?}"),
    }
    assert_eq!(chain.rounds, 1);
}

#[test]
fn the_walk_up_refuses_other_drives_and_drops_my_drive_root() {
    let (chain, _) = FolderChain::start(folder("c", "C", "d1", &["b"]), "d1".into());
    match chain.step(folder("b", "B", "d2", &["d1"])).1 {
        ChainAction::Failed(m) => assert_eq!(m, "Destination folder ancestry crosses Google Drive boundaries"),
        other => panic!("unexpected {other:?}"),
    }
    let (chain, _) = FolderChain::start(folder("c", "C", "", &["root"]), String::new());
    match chain.step(folder("root", "My Drive", "", &[])).1 {
        ChainAction::Done(folders) => assert_eq!(folders.len(), 1),
        other => panic!("unexpected {other:?}"),
    }
}
