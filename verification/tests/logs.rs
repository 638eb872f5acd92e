use quick_media_organizer::error_log::{
    keep_most_recent, log_path, log_paths, needs_rotation, record, MAX_ENTRIES, MAX_LOG_BYTES,
};

#[test]
fn the_log_keeps_only_the_most_recent_entries() {
    let mut entries: Vec<usize> = (0..MAX_ENTRIES).collect();
    record(&mut entries, 9999);
    assert_eq!(entries.len(), MAX_ENTRIES);
    assert_eq!(entries[0], 1);
    assert_eq!(*entries.last().unwrap(), 9999);
    let mut loaded: Vec<usize> = (0..MAX_ENTRIES + 20).collect();
    keep_most_recent(&mut loaded);
    assert_eq!(loaded.len(), MAX_ENTRIES);
    assert_eq!(loaded[0], 20);
    let mut few = vec![1, 2];
    record(&mut few, 3);
    assert_eq!(few, vec![1, 2, 3]);
}

#[test]
fn an_oversized_log_file_is_rewritten() {
    assert!(!needs_rotation(&vec![10, MAX_LOG_BYTES]));
    assert!(needs_rotation(&vec![10, MAX_LOG_BYTES + 1]));
    assert!(!needs_rotation(&vec![]));
}

#[test]
fn the_log_files_and_the_one_shown() {
    let p = log_paths("/data", None);
    assert_eq!(p, vec!["/data/error-log.jsonl"]);
    let d = log_paths("/data", Some("/work"));
    assert_eq!(d, vec!["/data/error-log.jsonl", "/work/logs/app-errors.jsonl"]);
    assert_eq!(log_path(&d), "/work/logs/app-errors.jsonl");
    assert_eq!(log_path(&vec![]), "");
}
