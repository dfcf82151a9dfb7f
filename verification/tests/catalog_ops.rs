use game_sl::catalog::{
    filter_backup_files, list_backups, resolve_with, sort_backups, update_backup_remark,
    BackupEntry, CandidateData, DirEntryInfo, RemarkUpdate, TimeSource,
};
use game_sl::ErrorKind;

fn dir_file(name: &str, is_file: bool) -> DirEntryInfo {
    DirEntryInfo { name: name.to_string(), is_file }
}

fn candidate(name: &str, modified: Option<i64>, remark: Option<&str>) -> CandidateData {
    CandidateData {
        file_name: name.to_string(),
        file_path: format!("C:\\backups\\{name}"),
        size: 64,
        modified_millis: modified,
        remark: remark.map(|r| r.to_string()),
    }
}

#[test]
fn listing_filters_by_prefix_extension_and_file_kind() {
    let files = vec![
        dir_file("A-Backup-20240101-000000.zip", true),
        dir_file("A-Backup-20240101-000000.txt", true),
        dir_file("B-Backup-20240101-000000.zip", true),
        dir_file("A-Backup-20240202-000000.zip", false),
        dir_file("A-Backup-20240303-000000.7z", true),
        dir_file("A-Old-20240101-000000.zip", true),
    ];
    let kept = filter_backup_files("A", &files);
    assert_eq!(kept.len(), 2);
    assert_eq!(kept[0].file_name, "A-Backup-20240101-000000.zip");
    assert_eq!(kept[0].sidecar_name, "A-Backup-20240101-000000.txt");
    assert_eq!(kept[1].file_name, "A-Backup-20240303-000000.7z");
}

#[test]
fn listing_resolves_annotation_and_time_source() {
    let data = vec![
        candidate("A-Backup-20240101-000000.zip", Some(77), Some("before the boss")),
        candidate("A-Backup-garbled.zip", Some(55), None),
        candidate("A-Backup-alsogarbled.zip", None, None),
    ];
    let entries = list_backups(data);
    assert_eq!(entries.len(), 3);
    let by_name = |n: &str| -> &BackupEntry {
        entries.iter().find(|e| e.file_name == n).expect("listed")
    };
    let named = by_name("A-Backup-20240101-000000.zip");
    assert_eq!(named.time_source, TimeSource::FromName);
    assert_eq!(named.remark.as_deref(), Some("before the boss"));
    assert!(named.timestamp.is_some());
    let fallback = by_name("A-Backup-garbled.zip");
    assert_eq!(fallback.time_source, TimeSource::FromModifiedTime);
    assert_eq!(fallback.timestamp, Some(55));
    let unknown = by_name("A-Backup-alsogarbled.zip");
    assert_eq!(unknown.time_source, TimeSource::Unknown);
    assert_eq!(unknown.timestamp, None);
    // newest first, the entry without a timestamp last
    assert_eq!(entries[2].timestamp, None);
}

#[test]
fn sorting_is_descending_with_missing_timestamps_last() {
    let entry = |name: &str, ts: Option<i64>| BackupEntry {
        file_name: name.to_string(),
        file_path: name.to_string(),
        timestamp: ts,
        remark: None,
        size: 0,
        time_source: TimeSource::Unknown,
    };
    let sorted = sort_backups(vec![
        entry("b", Some(2)),
        entry("none", None),
        entry("c", Some(9)),
        entry("a", Some(2)),
    ]);
    let names: Vec<&str> = sorted.iter().map(|e| e.file_name.as_str()).collect();
    assert_eq!(names[0], "c");
    assert_eq!(names[3], "none");
    assert_eq!(sorted[1].timestamp, Some(2));
    assert_eq!(sorted[2].timestamp, Some(2));
}

#[test]
fn remark_update_rejects_foreign_names() {
    let r = update_backup_remark("A", "B-Backup-20240101-000000.zip", "note", true, false);
    assert_eq!(r.unwrap_err().kind, ErrorKind::InvalidInput);
}

#[test]
fn remark_update_requires_the_archive() {
    let r = update_backup_remark("A", "A-Backup-20240101-000000.zip", "note", false, false);
    assert_eq!(r.unwrap_err().kind, ErrorKind::NotFound);
}

#[test]
fn blank_remark_removes_an_existing_sidecar() {
    let plan = update_backup_remark("A", "A-Backup-20240101-000000.zip", "", true, true).unwrap();
    assert_eq!(plan.action, RemarkUpdate::RemoveNote);
    assert_eq!(plan.note_name, "A-Backup-20240101-000000.txt");
}

#[test]
fn blank_remark_without_sidecar_is_a_no_op() {
    let plan = update_backup_remark("A", "A-Backup-20240101-000000.zip", "   ", true, false)
        .unwrap();
    assert_eq!(plan.action, RemarkUpdate::NoChange);
}

#[test]
fn nonblank_remark_writes_the_sidecar() {
    let plan = update_backup_remark("A", "A-Backup-20240101-000000.zip", "checkpoint", true, true)
        .unwrap();
    assert_eq!(plan.action, RemarkUpdate::WriteNote);
}

#[test]
fn resolution_prefers_the_decoded_value() {
    let e = resolve_with(Some(1111), candidate("A-Backup-garbled.zip", Some(55), None));
    assert_eq!(e.timestamp, Some(1111));
    assert_eq!(e.time_source, TimeSource::FromName);
    let e = resolve_with(None, candidate("A-Backup-garbled.zip", Some(55), None));
    assert_eq!(e.timestamp, Some(55));
    assert_eq!(e.time_source, TimeSource::FromModifiedTime);
    let e = resolve_with(None, candidate("A-Backup-garbled.zip", None, None));
    assert_eq!(e.timestamp, None);
    assert_eq!(e.time_source, TimeSource::Unknown);
}

#[test]
fn sorting_keeps_equal_keys_in_their_order() {
    let entry = |name: &str, ts: Option<i64>| BackupEntry {
        file_name: name.to_string(),
        file_path: name.to_string(),
        timestamp: ts,
        remark: None,
        size: 0,
        time_source: TimeSource::Unknown,
    };
    let sorted = sort_backups(vec![
        entry("n1", None),
        entry("e1", Some(4)),
        entry("n2", None),
        entry("e2", Some(4)),
        entry("n3", None),
    ]);
    let names: Vec<&str> = sorted.iter().map(|e| e.file_name.as_str()).collect();
    assert_eq!(names, vec!["e1", "e2", "n1", "n2", "n3"]);
}
