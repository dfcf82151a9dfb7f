use game_sl::archive::{read_archive, TreeEntry};
use game_sl::backup::perform_backup;
use game_sl::config::{AppConfig, GameEntry};
use game_sl::stamp::make_stamp;
use game_sl::ErrorKind;

fn config_with_game(name: &str) -> AppConfig {
    AppConfig {
        settings: Vec::new(),
        games: vec![GameEntry {
            name: name.to_string(),
            path: String::new(),
            icon: String::new(),
            last_save: None,
            kind: None,
        }],
        version: 1,
    }
}

#[test]
fn a_backup_names_its_files_and_records_the_instant() {
    let st = make_stamp(2024, 3, 9, 8, 7, 6).unwrap();
    let tree = vec![TreeEntry {
        path: "save.dat".to_string(),
        is_dir: false,
        data: b"progress".to_vec(),
    }];
    let mut config = config_with_game("My: Game?");
    let (resp, bytes) =
        perform_backup("My: Game?", "D:\\backups", &st, 4200, &tree, true, &mut config).unwrap();
    assert_eq!(resp.file_name, "My_ Game_-Backup-20240309-080706.zip");
    assert_eq!(resp.file_path, "D:\\backups\\My_ Game_-Backup-20240309-080706.zip");
    assert_eq!(
        resp.remark_path.as_deref(),
        Some("D:\\backups\\My_ Game_-Backup-20240309-080706.txt")
    );
    assert_eq!(resp.timestamp, 4200);
    assert_eq!(config.games[0].last_save, Some(4200));
    assert_eq!(resp.config.games[0].last_save, Some(4200));

    let back = read_archive(bytes).unwrap();
    assert_eq!(back.len(), 1);
    assert_eq!(back[0].components, vec!["save.dat".to_string()]);
    assert_eq!(back[0].data, b"progress");
}

#[test]
fn no_remark_means_no_annotation_path() {
    let st = make_stamp(2024, 3, 9, 8, 7, 6).unwrap();
    let mut config = config_with_game("G");
    let (resp, _bytes) =
        perform_backup("G", "D:\\backups", &st, 1, &vec![], false, &mut config).unwrap();
    assert!(resp.remark_path.is_none());
}

#[test]
fn an_unknown_entity_fails_without_touching_the_document() {
    let st = make_stamp(2024, 3, 9, 8, 7, 6).unwrap();
    let mut config = config_with_game("Other");
    let e = perform_backup("G", "D:\\backups", &st, 1, &vec![], false, &mut config).unwrap_err();
    assert_eq!(e.kind, ErrorKind::NotFound);
    assert_eq!(config.games[0].last_save, None);
}
