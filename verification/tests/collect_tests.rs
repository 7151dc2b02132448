use file_tools::collect::{
    assemble_records, assemble_records_with_hash, basename, is_excluded, sift_glob_entries,
    sift_walk_entries, EmitCursor,
};
use file_tools::errors::CollectError;
use file_tools::fsapi::TraversalEntry;
use file_tools::errors::IoFault;
use file_tools::params::{parse_bool_flag, parse_exclude_patterns};
use file_tools::records::{
    format_permissions, metadata_json, system_time_to_microseconds, FileMetadata, StatInfo,
    StatOutcome,
};

fn plain_stat() -> StatInfo {
    StatInfo {
        size: 42,
        modified: Some((1_700_000_000, 123_456_789)),
        accessed: Some((1_700_000_001, 0)),
        created: None,
        mode: 0o644,
        inode: 7,
        is_file: true,
        is_dir: false,
        is_symlink: false,
    }
}

fn same_record(a: &FileMetadata, b: &FileMetadata) -> bool {
    a.path == b.path && a.size == b.size && a.modified_time == b.modified_time
        && a.accessed_time == b.accessed_time && a.created_time == b.created_time
        && a.permissions == b.permissions && a.inode == b.inode && a.is_file == b.is_file
        && a.is_dir == b.is_dir && a.is_symlink == b.is_symlink && a.hash == b.hash
}

#[test]
fn exclusion_drops_matching_paths_and_basenames() {
    let excludes = vec!["*.log".to_string()];
    assert!(is_excluded("a/c.log", &excludes));
    assert!(!is_excluded("a/b.txt", &excludes));
    // an exclude that matches only the final component still drops the
    // entry at any nesting depth
    let by_name = vec!["c.log".to_string()];
    assert!(is_excluded("x/y/z/c.log", &by_name));
    assert!(!is_excluded("x/y/z/d.log", &by_name));

    let entries = vec![
        TraversalEntry::Path("a/b.txt".to_string()),
        TraversalEntry::Path("a/c.log".to_string()),
    ];
    let kept = sift_glob_entries(&entries, &excludes).unwrap();
    assert_eq!(kept, vec!["a/b.txt".to_string()]);
}

#[test]
fn basename_takes_the_final_component() {
    assert_eq!(basename("a/b/c.txt"), "c.txt");
    assert_eq!(basename("c.txt"), "c.txt");
    assert_eq!(basename(""), "");
}

#[test]
fn recoverable_faults_drop_and_others_abort() {
    let excludes: Vec<String> = Vec::new();
    let entries = vec![
        TraversalEntry::Path("keep.txt".to_string()),
        TraversalEntry::Fault(IoFault::NotFound),
        TraversalEntry::Fault(IoFault::PermissionDenied),
    ];
    assert_eq!(sift_glob_entries(&entries, &excludes).unwrap(), vec!["keep.txt".to_string()]);

    let entries = vec![
        TraversalEntry::Path("keep.txt".to_string()),
        TraversalEntry::Fault(IoFault::Other),
    ];
    assert!(matches!(sift_glob_entries(&entries, &excludes), Err(CollectError::TraversalIo)));
}

#[test]
fn walk_entries_filter_against_the_full_expression() {
    let excludes = vec!["*.log".to_string()];
    let entries = vec![
        TraversalEntry::Path("src".to_string()),
        TraversalEntry::Path("src/lib.rs".to_string()),
        TraversalEntry::Path("src/notes.log".to_string()),
        TraversalEntry::Path("other/file.rs".to_string()),
        TraversalEntry::Fault(IoFault::PermissionDenied),
    ];
    let kept = sift_walk_entries(&entries, "src/*.rs", false, &excludes).unwrap();
    assert_eq!(kept, vec!["src/lib.rs".to_string()]);

    let entries = vec![
        TraversalEntry::Path("src/lib.rs".to_string()),
        TraversalEntry::Fault(IoFault::Other),
    ];
    assert!(matches!(
        sift_walk_entries(&entries, "src/*.rs", false, &excludes),
        Err(CollectError::TraversalIo)
    ));
}

#[test]
fn sequential_assembly_skips_and_aborts_by_fault_kind() {
    let candidates = vec!["a".to_string(), "b".to_string(), "c".to_string()];
    let outcomes = vec![
        StatOutcome::Found(plain_stat()),
        StatOutcome::NotFound,
        StatOutcome::PermissionDenied,
    ];
    let recs = assemble_records(&candidates, &outcomes, true).unwrap();
    assert_eq!(recs.len(), 1);
    assert_eq!(recs[0].path, "a");
    assert_eq!(recs[0].size, 42);
    assert_eq!(recs[0].permissions, "644");
    assert_eq!(recs[0].hash, None);

    let outcomes = vec![StatOutcome::Found(plain_stat()), StatOutcome::Failed, StatOutcome::NotFound];
    assert!(matches!(
        assemble_records(&candidates, &outcomes, true),
        Err(CollectError::StatIo)
    ));
}

#[test]
fn no_follow_policy_never_yields_symlink_records() {
    let mut link = plain_stat();
    link.is_symlink = true;
    let candidates = vec!["link".to_string(), "file".to_string()];
    let outcomes = vec![StatOutcome::Found(link.clone()), StatOutcome::Found(plain_stat())];
    let recs = assemble_records(&candidates, &outcomes, false).unwrap();
    assert_eq!(recs.len(), 1);
    assert_eq!(recs[0].path, "file");
    assert!(recs.iter().all(|r| !r.is_symlink));

    // with the follow policy the link path stays, reported as a symlink
    let recs = assemble_records(&candidates, &outcomes, true).unwrap();
    assert_eq!(recs.len(), 2);
    assert!(recs[0].is_symlink);
}

#[test]
fn sequential_collection_is_idempotent_on_fixed_outcomes() {
    let candidates = vec!["a".to_string(), "b".to_string()];
    let outcomes = vec![StatOutcome::Found(plain_stat()), StatOutcome::NotFound];
    let first = assemble_records(&candidates, &outcomes, true).unwrap();
    let second = assemble_records(&candidates, &outcomes, true).unwrap();
    assert_eq!(first.len(), second.len());
    for (a, b) in first.iter().zip(second.iter()) {
        assert!(same_record(a, b));
    }
}

#[test]
fn parallel_assembly_carries_hashes_for_files_only() {
    let mut dir = plain_stat();
    dir.is_file = false;
    dir.is_dir = true;
    let candidates = vec!["f".to_string(), "d".to_string(), "gone".to_string()];
    let stats = vec![Some(plain_stat()), Some(dir), None];
    let digest = "ab".repeat(32);
    let hashes = vec![Some(digest.clone()), Some(digest.clone()), None];
    let recs = assemble_records_with_hash(&candidates, &stats, &hashes, true);
    assert_eq!(recs.len(), 2);
    assert_eq!(recs[0].hash.as_deref(), Some(digest.as_str()));
    assert_eq!(recs[1].hash, None, "a directory carries no hash");
}

#[test]
fn hash_may_be_absent_after_a_race() {
    let candidates = vec!["f".to_string()];
    let stats = vec![Some(plain_stat())];
    let hashes: Vec<Option<String>> = vec![None];
    let recs = assemble_records_with_hash(&candidates, &stats, &hashes, true);
    assert_eq!(recs.len(), 1);
    assert_eq!(recs[0].hash, None);
}

#[test]
fn emit_cursor_walks_the_result_once() {
    let mut cursor = EmitCursor::new();
    assert_eq!(cursor.next_index(2), Some(0));
    assert_eq!(cursor.next_index(2), Some(1));
    assert_eq!(cursor.next_index(2), None);
    assert_eq!(cursor.next_index(2), None);
}

#[test]
fn time_conversion_floors_and_clamps() {
    assert_eq!(system_time_to_microseconds(None), 0);
    assert_eq!(system_time_to_microseconds(Some((1, 2_500))), 1_000_002);
    assert_eq!(system_time_to_microseconds(Some((0, 999))), 0);
    assert_eq!(
        system_time_to_microseconds(Some((1_700_000_000, 123_456_789))),
        1_700_000_000_123_456
    );
}

#[test]
fn permissions_render_in_octal() {
    assert_eq!(format_permissions(0o644), "644");
    assert_eq!(format_permissions(0o100755), "100755");
    assert_eq!(format_permissions(0), "0");
}

#[test]
fn test_file_metadata_json_function() {
    let json = metadata_json(&plain_stat());
    assert!(json.contains("\"size\""), "Should contain size field");
    assert!(json.contains("\"is_file\""), "Should contain is_file field");
    assert_eq!(
        json,
        "{\"size\": 42, \"modified_time\": 1700000000123456, \
         \"accessed_time\": 1700000001000000, \"created_time\": 1700000000123456, \
         \"permissions\": \"644\", \"inode\": 7, \"is_file\": true, \"is_dir\": false, \
         \"is_symlink\": false}"
    );
}

#[test]
fn exclude_input_parses_lists_and_single_patterns() {
    assert_eq!(
        parse_exclude_patterns("[\"*.log\", '*.tmp']"),
        vec!["*.log".to_string(), "*.tmp".to_string()]
    );
    assert_eq!(parse_exclude_patterns("*.log"), vec!["*.log".to_string()]);
    assert_eq!(parse_exclude_patterns("NULL"), Vec::<String>::new());
    assert_eq!(parse_exclude_patterns(""), Vec::<String>::new());
    assert_eq!(parse_exclude_patterns("[]"), Vec::<String>::new());
}

#[test]
fn bool_flags_read_true_in_any_casing() {
    assert!(parse_bool_flag("true"));
    assert!(parse_bool_flag("TRUE"));
    assert!(parse_bool_flag("True"));
    assert!(!parse_bool_flag("false"));
    assert!(!parse_bool_flag("1"));
    assert!(!parse_bool_flag(""));
}
