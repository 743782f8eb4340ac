use boreal::local_files::{
    checksum, entry_item, parse_roots, relative_path, record_checksum, EntryFacts, scan, validate_roots, wildcard_match, workers_for_available_cores, CachedHash,
    HashStep, Item, RootEntry, ScanResult,
};

#[test]
fn wildcard_patterns_match_paths() {
    assert!(wildcard_match("Downloads/*.iso", "Downloads/archive.iso"));
    assert!(wildcard_match("**/cache*", "work/cache-data"));
    assert!(!wildcard_match("*.zip", "Downloads/archive.iso"));
}

#[test]
fn scanner_workers_are_capped_at_seventy_five_percent() {
    assert_eq!(workers_for_available_cores(1), 1);
    assert_eq!(workers_for_available_cores(2), 1);
    assert_eq!(workers_for_available_cores(3), 2);
    assert_eq!(workers_for_available_cores(4), 3);
    assert_eq!(workers_for_available_cores(8), 6);
}

#[test]
fn wildcards_match_like_globs_on_ordinary_names() {
    assert!(wildcard_match("a?c", "abc"));
    assert!(!wildcard_match("a?c", "ac"));
    assert!(wildcard_match("*", ""));
    assert!(wildcard_match("report*2024*", "report-final-2024.pdf"));
    assert!(!wildcard_match("report*2024", "report-2025"));
}

#[test]
fn missing_roots_are_rejected() {
    let roots = vec!["/definitely/missing/boreal-root".to_string()];
    let error = validate_roots(&roots, &vec![false]).unwrap_err();
    assert_eq!(error, "Local folder does not exist or is not a directory: /definitely/missing/boreal-root");
}

#[test]
fn root_validation_reports_each_problem() {
    assert_eq!(validate_roots(&vec![], &vec![]).unwrap_err(), "Add at least one local folder");
    assert_eq!(
        validate_roots(&vec!["relative".into()], &vec![true]).unwrap_err(),
        "Local folder must be an absolute path: relative"
    );
    assert_eq!(
        validate_roots(&vec!["/data".into(), "/data/".into()], &vec![true, true]).unwrap_err(),
        "Local folder is listed more than once: /data/"
    );
    assert!(validate_roots(&vec!["/data".into(), "/other".into()], &vec![true, true]).is_ok());
}

#[test]
fn configured_roots_expand_the_home_directory() {
    let roots = parse_roots(" ~ \n\n~/Documents\n/srv/data \n");
    assert_eq!(
        roots,
        vec![RootEntry::Home, RootEntry::BelowHome("Documents".into()), RootEntry::Given("/srv/data".into())]
    );
}

fn entry(path: &str, directory: bool, size: u64) -> Item {
    Item {
        root_path: "/r".into(),
        relative_path: path.into(),
        name: path.into(),
        is_directory: directory,
        size_bytes: size,
        ..Item::default()
    }
}

#[test]
fn a_finished_walk_gets_folder_sizes_and_checksum_steps() {
    let walked = ScanResult {
        items: vec![entry("reports", true, 0), entry("reports/a.txt", false, 4), entry("reports/b.txt", false, 4), entry("c.txt", false, 9)],
        skipped: 0,
        errors: vec![],
        cancelled: false,
    };
    let cache = vec![CachedHash {
        root_path: "/r".into(),
        relative_path: "reports/a.txt".into(),
        size_bytes: 4,
        modified_unix: 0,
        checksum_sha256: "cached".into(),
    }];
    let (result, steps) = scan(walked, &cache);
    assert_eq!(result.items[0].size_bytes, 8);
    assert_eq!(steps, vec![HashStep::Skip, HashStep::Reuse("cached".into()), HashStep::Compute, HashStep::Skip]);
}

#[test]
fn a_cancelled_walk_is_returned_unchanged() {
    let walked = ScanResult { items: vec![entry("a", true, 0)], skipped: 2, errors: vec![], cancelled: true };
    let (result, steps) = scan(walked, &vec![]);
    assert!(result.cancelled);
    assert!(steps.is_empty());
    assert_eq!(result.items[0].size_bytes, 0);
    assert_eq!(result.skipped, 2);
}

#[test]
fn unreadable_files_are_counted_with_their_path() {
    let mut result = ScanResult { items: vec![entry("x.bin", false, 3)], skipped: 0, errors: vec![], cancelled: false };
    record_checksum(&mut result, 0, Err("permission denied".into()));
    assert_eq!(result.skipped, 1);
    assert_eq!(result.errors, vec!["/r/x.bin: permission denied".to_string()]);
    record_checksum(&mut result, 0, Ok("abc".into()));
    assert_eq!(result.items[0].checksum_sha256, "abc");
}

fn facts(is_symlink: bool, is_dir: bool) -> EntryFacts {
    EntryFacts {
        is_symlink,
        is_dir,
        len: 4096,
        modified_unix: 7,
        modified_nanos: Some(9),
        symlink_target: "/elsewhere/target".into(),
        owner_username: "ada".into(),
        owner_identifier: "1000".into(),
        group_name: "staff".into(),
        group_identifier: "20".into(),
    }
}

#[test]
fn entries_keep_links_as_themselves_and_size_only_files() {
    let file = entry_item("/r".into(), "a/b.TXT".into(), "b.TXT".into(), "TXT".into(), facts(false, false));
    assert!(!file.is_directory && !file.is_symlink);
    assert_eq!(file.size_bytes, 4096);
    assert_eq!(file.extension, "TXT");
    assert_eq!(file.symlink_target, "");
    assert_eq!(file.owner_username, "ada");
    assert_eq!(file.modified_nanos, Some(9));
    assert_eq!(file.checksum_sha256, "");
    let folder = entry_item("/r".into(), "a".into(), "a".into(), "".into(), facts(false, true));
    assert!(folder.is_directory);
    assert_eq!(folder.size_bytes, 0);
    let link = entry_item("/r".into(), "l".into(), "l".into(), "".into(), facts(true, true));
    assert!(link.is_symlink && !link.is_directory);
    assert_eq!(link.size_bytes, 0);
    assert_eq!(link.symlink_target, "/elsewhere/target");
}

#[test]
fn checksums_are_lowercase_hex_sha256() {
    assert_eq!(checksum(b"abc"), "ba7816bf8f01cfea414140de5dae2223b00361a396177a9cb410ff61f20015ad");
    assert_eq!(checksum(b""), "e3b0c44298fc1c149afbf4c8996fb92427ae41e4649b934ca495991b7852b855");
}

#[test]
fn entries_are_inventoried_relative_to_their_root() {
    assert_eq!(relative_path("/data/a/b.txt", "/data"), "a/b.txt");
    assert_eq!(relative_path("/data/", "/data"), "");
    assert_eq!(relative_path("/other/x", "/data"), "/other/x");
    assert_eq!(relative_path("/data/back\\slash", "/data"), "back/slash");
}
