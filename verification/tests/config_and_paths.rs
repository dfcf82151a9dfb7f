use game_sl::config::{
    ensure_settings_defaults, reorder_games, setting_flag, update_last_save, update_setting,
    AppConfig, GameEntry, Setting, SettingValue,
};
use game_sl::paths::{
    appdata_root, choose_home, get_steam_install_dir_internal, join_path, list_steam_uid,
    normalize_path_separators, path_file_name, path_parent, resolve_template_path, DirChild,
};
use game_sl::ErrorKind;

fn game(name: &str) -> GameEntry {
    GameEntry {
        name: name.to_string(),
        path: String::new(),
        icon: String::new(),
        last_save: None,
        kind: None,
    }
}

fn config_with(games: Vec<GameEntry>) -> AppConfig {
    AppConfig { settings: Vec::new(), games, version: 1 }
}

#[test]
fn defaults_are_filled_in_once() {
    let mut config = config_with(vec![]);
    assert!(ensure_settings_defaults(&mut config));
    assert_eq!(config.settings.len(), 2);
    assert_eq!(config.settings[0].key, "restoreExtraBackup");
    assert_eq!(config.settings[1].key, "useRelativeTime");
    assert!(!ensure_settings_defaults(&mut config));
    assert_eq!(config.settings.len(), 2);
}

#[test]
fn a_present_flag_is_not_overwritten() {
    let mut config = config_with(vec![]);
    config.settings.push(Setting {
        key: "restoreExtraBackup".to_string(),
        value: SettingValue::Flag(false),
    });
    assert!(ensure_settings_defaults(&mut config));
    assert!(!setting_flag(&config, "restoreExtraBackup", true));
    assert!(setting_flag(&config, "useRelativeTime", false));
    assert!(setting_flag(&config, "absent", true));
}

#[test]
fn last_save_updates_the_matching_game_only() {
    let mut config = config_with(vec![game("A"), game("B")]);
    update_last_save(&mut config, "B", 99).unwrap();
    assert_eq!(config.games[0].last_save, None);
    assert_eq!(config.games[1].last_save, Some(99));
    let e = update_last_save(&mut config, "C", 1).unwrap_err();
    assert_eq!(e.kind, ErrorKind::NotFound);
}

#[test]
fn settings_update_replaces_or_appends() {
    let mut config = config_with(vec![]);
    update_setting(&mut config, "useRelativeTime".to_string(), SettingValue::Flag(false));
    assert_eq!(config.settings.len(), 1);
    update_setting(&mut config, "useRelativeTime".to_string(), SettingValue::Flag(true));
    assert_eq!(config.settings.len(), 1);
    assert!(setting_flag(&config, "useRelativeTime", false));
    update_setting(&mut config, "theme".to_string(), SettingValue::Text("dark".to_string()));
    assert_eq!(config.settings.len(), 2);
}

#[test]
fn reordering_keeps_every_entry() {
    let mut config = config_with(vec![game("A"), game("B"), game("C")]);
    reorder_games(&mut config, &vec!["C".to_string(), "A".to_string()]);
    let names: Vec<&str> = config.games.iter().map(|g| g.name.as_str()).collect();
    assert_eq!(names, vec!["C", "A", "B"]);
    reorder_games(&mut config, &vec!["missing".to_string()]);
    assert_eq!(config.games.len(), 3);
}

#[test]
fn separators_are_normalized() {
    assert_eq!(normalize_path_separators("C:/Users//me\\\\saves"), "C:\\Users\\me\\saves");
    assert_eq!(normalize_path_separators("plain"), "plain");
}

#[test]
fn templates_resolve_in_a_fixed_order() {
    let r = resolve_template_path(
        "{Steam}/steamapps/{SteamUID}/remote",
        Some("C:\\Steam"),
        Some("42"),
        None,
        None,
    )
    .unwrap();
    assert_eq!(r, "C:\\Steam\\steamapps\\42\\remote");

    let r = resolve_template_path("{AppData}/Game", None, None, Some("C:\\Users\\me\\AppData\\Roaming"), None)
        .unwrap();
    assert_eq!(r, "C:\\Users\\me\\AppData\\Roaming\\Game");

    let r = resolve_template_path("{Home}/saves and {User}", None, None, None, Some("C:\\Users\\me"))
        .unwrap();
    assert_eq!(r, "C:\\Users\\me\\saves and C:\\Users\\me");

    let r = resolve_template_path("no placeholders", None, None, None, None).unwrap();
    assert_eq!(r, "no placeholders");
}

#[test]
fn a_template_without_its_value_is_rejected() {
    let e = resolve_template_path("{SteamUID}/x", None, None, None, None).unwrap_err();
    assert_eq!(e.kind, ErrorKind::InvalidInput);
    let e = resolve_template_path("{Steam}/x", None, Some("1"), None, None).unwrap_err();
    assert_eq!(e.kind, ErrorKind::InvalidInput);
}

#[test]
fn home_prefers_the_profile_variable() {
    assert_eq!(choose_home(Some("C:/Users/me"), Some("/home/me")).unwrap(), "C:\\Users\\me");
    assert_eq!(choose_home(None, Some("/home/me")).unwrap(), "\\home\\me");
    assert_eq!(choose_home(None, None).unwrap_err().kind, ErrorKind::IoFailure);
}

#[test]
fn appdata_root_comes_from_roaming_or_home() {
    let r = appdata_root(Some("C:\\Users\\me\\AppData\\Roaming"), None, None).unwrap();
    assert_eq!(r, "C:\\Users\\me\\AppData");
    let r = appdata_root(None, Some("C:\\Users\\me"), None).unwrap();
    assert_eq!(r, "C:\\Users\\me\\AppData");
    assert!(appdata_root(None, None, None).is_err());
}

#[test]
fn path_portions_split_on_the_last_separator() {
    assert_eq!(path_file_name("C:\\a\\b.zip"), "b.zip");
    assert_eq!(path_file_name("bare.zip"), "bare.zip");
    assert_eq!(path_parent("C:\\a\\b.zip").as_deref(), Some("C:\\a"));
    assert_eq!(path_parent("bare.zip"), None);
    assert_eq!(join_path("C:\\a", "b"), "C:\\a\\b");
}

#[test]
fn steam_registry_is_out_of_reach_here() {
    assert!(get_steam_install_dir_internal().is_err());
}

#[test]
fn uid_directories_are_all_digit_names() {
    let children = vec![
        DirChild { name: "12345".to_string(), is_dir: true },
        DirChild { name: "12a45".to_string(), is_dir: true },
        DirChild { name: "999".to_string(), is_dir: false },
        DirChild { name: "7".to_string(), is_dir: true },
    ];
    assert_eq!(list_steam_uid(&children), vec!["12345".to_string(), "7".to_string()]);
}
