use boreal::database::local_migration::{select_sources, validate_relative, Selection};
use boreal::paths::{path_within, same_path};

fn sel(id: i64, root: &str, path: &str, directory: bool) -> Selection {
    let name = path.rsplit('/').next().unwrap().to_string();
    Selection { id, root: root.into(), path: path.into(), name, directory }
}

#[test]
fn indexed_relative_paths_are_checked() {
    assert!(validate_relative("folder/file.txt").is_ok());
    for bad in ["", "/etc/passwd", "a//b", "a/./b", "a/../b", "a\\b", "a\0b", "folder/"] {
        assert_eq!(validate_relative(bad), Err("Invalid indexed local path; update Local Files metadata"), "{bad:?}");
    }
}

#[test]
fn selections_inside_a_selected_folder_are_covered_by_it() {
    let ids = vec![3, 1, 2, 1];
    let found = vec![
        Some((sel(3, "/data", "reports/2024/q1.pdf", false), false)),
        Some((sel(1, "/data", "reports", true), false)),
        Some((sel(2, "/data", "notes.txt", false), false)),
        Some((sel(1, "/data", "reports", true), false)),
    ];
    let plan = select_sources(&ids, &found, &vec!["/data".into()]).unwrap();
    let ids: Vec<i64> = plan.iter().map(|s| s.id).collect();
    assert_eq!(ids, vec![2, 1]);
}

#[test]
fn migration_selections_report_the_first_problem() {
    let roots = vec!["/data".to_string()];
    assert_eq!(select_sources(&vec![], &vec![], &roots).unwrap_err(), "Select at least one local file or folder");
    assert_eq!(
        select_sources(&vec![1], &vec![None], &roots).unwrap_err(),
        "A selected local entry is no longer indexed. Refresh the explorer."
    );
    assert_eq!(
        select_sources(&vec![1], &vec![Some((sel(1, "/elsewhere", "a", false), false))], &roots).unwrap_err(),
        "A selected root is no longer configured. Refresh the explorer."
    );
    assert_eq!(
        select_sources(&vec![1], &vec![Some((sel(1, "/data", "a", false), true))], &roots).unwrap_err(),
        "Symbolic links cannot be migrated. Select the original indexed files instead."
    );
    assert_eq!(
        select_sources(&vec![1], &vec![Some((sel(1, "/data", "a/../b", false), false))], &roots).unwrap_err(),
        "Invalid indexed local path; update Local Files metadata"
    );
    let mut bad_name = sel(1, "/data", "a", false);
    bad_name.name = "..".into();
    assert_eq!(select_sources(&vec![1], &vec![Some((bad_name, false))], &roots).unwrap_err(), "Invalid local source name");
}

#[test]
fn top_level_names_must_differ() {
    let found = vec![
        Some((sel(1, "/data", "a/report.pdf", false), false)),
        Some((sel(2, "/data", "b/report.pdf", false), false)),
    ];
    assert_eq!(
        select_sources(&vec![1, 2], &found, &vec!["/data/".into()]).unwrap_err(),
        "Multiple selected items are named 'report.pdf'. Migrate them separately or select their parent folders."
    );
}

#[test]
fn full_paths_join_root_and_relative_path() {
    assert_eq!(sel(1, "/data", "a/b.txt", false).full_path(), "/data/a/b.txt");
    assert!(same_path("/data/", "/data"));
    assert!(!same_path("/data", "/data2"));
    assert!(path_within("/home/me/.boreal/x", "/home/me/.boreal"));
    assert!(!path_within("/home/me/.borealx", "/home/me/.boreal"));
}
