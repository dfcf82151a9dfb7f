use game_sl::config::{AppConfig, GameEntry, Setting, SettingValue};
use game_sl::restore::{
    begin_restore, choose_restore_timestamp, finish_restore, stage_err, RestoreAction,
    RestoreMachine, RestorePhase, RestoreStage,
};
use game_sl::stamp::make_stamp;
use game_sl::{CoreError, ErrorKind};

fn sample_config() -> AppConfig {
    AppConfig {
        settings: vec![Setting {
            key: "restoreExtraBackup".to_string(),
            value: SettingValue::Flag(true),
        }],
        games: vec![GameEntry {
            name: "Game".to_string(),
            path: "{Steam}\\steamapps\\common\\Game".to_string(),
            icon: String::new(),
            last_save: None,
            kind: None,
        }],
        version: 1,
    }
}

fn begin_ok(enabled: bool, target_exists: bool) -> RestoreMachine {
    let st = make_stamp(2024, 6, 1, 10, 30, 0).unwrap();
    begin_restore(
        "Game",
        "C:\\backups\\Game-Backup-20240101-000000.zip",
        true,
        Ok("C:\\saves\\Game".to_string()),
        enabled,
        target_exists,
        "C:\\extra",
        &st,
    )
    .expect("the checks pass")
}

#[test]
fn stage_codes_match_the_reporting_convention() {
    assert_eq!(RestoreStage::Check.as_code(), "CHECK");
    assert_eq!(RestoreStage::ExtraBackup.as_code(), "EXTRA_BACKUP");
    assert_eq!(RestoreStage::Delete.as_code(), "DELETE");
    assert_eq!(RestoreStage::Extract.as_code(), "EXTRACT");
    assert_eq!(RestoreStage::UpdateConfig.as_code(), "UPDATE_CONFIG");
    assert_eq!(stage_err(RestoreStage::Delete, "oops"), "[DELETE] oops");
}

#[test]
fn missing_archive_fails_the_check_stage() {
    let st = make_stamp(2024, 6, 1, 10, 30, 0).unwrap();
    let e = begin_restore(
        "Game",
        "C:\\backups\\gone.zip",
        false,
        Ok("C:\\saves\\Game".to_string()),
        true,
        true,
        "C:\\extra",
        &st,
    )
    .unwrap_err();
    assert_eq!(e.stage, RestoreStage::Check);
    assert_eq!(e.kind, ErrorKind::NotFound);
}

#[test]
fn unsupported_extension_is_a_policy_violation() {
    let st = make_stamp(2024, 6, 1, 10, 30, 0).unwrap();
    let e = begin_restore(
        "Game",
        "C:\\backups\\Game-Backup-20240101-000000.7z",
        true,
        Ok("C:\\saves\\Game".to_string()),
        true,
        true,
        "C:\\extra",
        &st,
    )
    .unwrap_err();
    assert_eq!(e.stage, RestoreStage::Check);
    assert_eq!(e.kind, ErrorKind::PolicyViolation);

    let e2 = begin_restore(
        "Game",
        "C:\\backups\\no-extension",
        true,
        Ok("C:\\saves\\Game".to_string()),
        true,
        true,
        "C:\\extra",
        &st,
    )
    .unwrap_err();
    assert_eq!(e2.kind, ErrorKind::InvalidInput);
}

#[test]
fn a_failed_target_resolution_fails_the_check_stage() {
    let st = make_stamp(2024, 6, 1, 10, 30, 0).unwrap();
    let e = begin_restore(
        "Game",
        "C:\\backups\\Game-Backup-20240101-000000.ZIP",
        true,
        Err(CoreError { kind: ErrorKind::InvalidInput, message: "no identifier".to_string() }),
        true,
        true,
        "C:\\extra",
        &st,
    )
    .unwrap_err();
    assert_eq!(e.stage, RestoreStage::Check);
    assert_eq!(e.kind, ErrorKind::InvalidInput);
}

#[test]
fn the_stages_run_in_their_one_order() {
    let m = begin_ok(true, true);
    assert_eq!(m.phase, RestorePhase::Snapshotting);
    match m.next_action() {
        RestoreAction::MakeSnapshot { source_dir, archive_path, .. } => {
            assert_eq!(source_dir, "C:\\saves\\Game");
            assert_eq!(archive_path, "C:\\extra\\Game-ExtraBackup-20240601-103000.zip");
        },
        _ => panic!("the snapshot must come first"),
    }
    let m = m.on_result(Ok(())).expect("snapshot taken");
    assert_eq!(m.phase, RestorePhase::Removing);
    match m.next_action() {
        RestoreAction::MoveToTrash { path } => assert_eq!(path, "C:\\saves\\Game"),
        _ => panic!("removal follows the snapshot"),
    }
    let m = m.on_result(Ok(())).expect("target trashed");
    assert_eq!(m.phase, RestorePhase::Preparing);
    let m = m.on_result(Ok(())).expect("target recreated");
    assert_eq!(m.phase, RestorePhase::Extracting);
    match m.next_action() {
        RestoreAction::ExtractArchive { archive_path, dest_dir } => {
            assert_eq!(archive_path, "C:\\backups\\Game-Backup-20240101-000000.zip");
            assert_eq!(dest_dir, "C:\\saves\\Game");
        },
        _ => panic!("extraction comes last"),
    }
    let m = m.on_result(Ok(())).expect("extraction succeeded");
    assert_eq!(m.phase, RestorePhase::Finishing);

    let mut config = sample_config();
    let resp = finish_restore(m, &mut config, Some(12345)).expect("bookkeeping succeeded");
    assert_eq!(resp.restored_path, "C:\\saves\\Game");
    assert_eq!(
        resp.extra_backup_path.as_deref(),
        Some("C:\\extra\\Game-ExtraBackup-20240601-103000.zip")
    );
    assert_eq!(config.games[0].last_save, Some(resp.timestamp));
}

#[test]
fn extraction_failure_rolls_back_to_the_snapshot() {
    let m = begin_ok(true, true);
    let m = m.on_result(Ok(())).unwrap();
    let m = m.on_result(Ok(())).unwrap();
    let m = m.on_result(Ok(())).unwrap();
    assert_eq!(m.phase, RestorePhase::Extracting);
    let abort = m.on_result(Err("disk full".to_string())).unwrap_err();
    assert_eq!(abort.error.stage, RestoreStage::Extract);
    assert_eq!(abort.error.message, "[EXTRACT] disk full");
    assert_eq!(abort.cleanup_target.as_deref(), Some("C:\\saves\\Game"));
    assert_eq!(
        abort.rollback_archive.as_deref(),
        Some("C:\\extra\\Game-ExtraBackup-20240601-103000.zip")
    );
}

#[test]
fn a_disabled_policy_means_no_snapshot_anywhere() {
    let m = begin_ok(false, true);
    assert_eq!(m.phase, RestorePhase::Removing);
    assert!(m.snapshot_path.is_none());
    let m = m.on_result(Ok(())).unwrap();
    let m = m.on_result(Ok(())).unwrap();
    let m = m.on_result(Ok(())).unwrap();
    let mut config = sample_config();
    let resp = finish_restore(m, &mut config, Some(777)).expect("bookkeeping succeeded");
    assert!(resp.extra_backup_path.is_none());
}

#[test]
fn extraction_failure_without_snapshot_still_cleans_the_target() {
    let m = begin_ok(false, true);
    let m = m.on_result(Ok(())).unwrap();
    let m = m.on_result(Ok(())).unwrap();
    let abort = m.on_result(Err("short read".to_string())).unwrap_err();
    assert_eq!(abort.error.stage, RestoreStage::Extract);
    assert_eq!(abort.cleanup_target.as_deref(), Some("C:\\saves\\Game"));
    assert_eq!(abort.rollback_archive, None);
}

#[test]
fn a_missing_target_skips_snapshot_and_removal() {
    let m = begin_ok(true, false);
    assert_eq!(m.phase, RestorePhase::Preparing);
    assert!(m.snapshot_path.is_none());
}

#[test]
fn finishing_with_an_unknown_entity_reports_bookkeeping() {
    let m = begin_ok(false, false);
    let m = m.on_result(Ok(())).unwrap();
    let m = m.on_result(Ok(())).unwrap();
    let mut config = sample_config();
    config.games.clear();
    let e = finish_restore(m, &mut config, Some(1)).unwrap_err();
    assert_eq!(e.stage, RestoreStage::UpdateConfig);
    assert_eq!(e.kind, ErrorKind::NotFound);
}

#[test]
fn the_recorded_instant_follows_the_fixed_preference() {
    assert_eq!(choose_restore_timestamp(Some(3), Some(2), 1), 3);
    assert_eq!(choose_restore_timestamp(None, Some(2), 1), 2);
    assert_eq!(choose_restore_timestamp(None, None, 1), 1);
}

#[test]
fn check_failures_carry_their_stage_tag() {
    let st = make_stamp(2024, 6, 1, 10, 30, 0).unwrap();
    let e = begin_restore(
        "Game",
        "C:\\backups\\gone.zip",
        false,
        Ok("C:\\saves\\Game".to_string()),
        true,
        true,
        "C:\\extra",
        &st,
    )
    .unwrap_err();
    assert!(e.message.starts_with("[CHECK] "));
}
