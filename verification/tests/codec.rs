use game_sl::names::{
    encode_backup_stem, encode_extra_backup_stem, parse_stamp_from_name, sanitize_filename,
    sidecar_name,
};
use game_sl::stamp::{make_stamp, parse_stamp, Stamp};
use game_sl::clock::decode_timestamp_millis;

fn stamp(y: u32, mo: u32, d: u32, h: u32, mi: u32, s: u32) -> Stamp {
    make_stamp(y, mo, d, h, mi, s).expect("a representable instant")
}

#[test]
fn sanitize_replaces_reserved_characters() {
    assert_eq!(sanitize_filename("a<b>c:d\"e|f?g*h/i\\j"), "a_b_c_d_e_f_g_h_i_j");
}

#[test]
fn sanitize_trims_whitespace_and_trailing_dots() {
    assert_eq!(sanitize_filename("  Elden Ring  "), "Elden Ring");
    assert_eq!(sanitize_filename("Save..."), "Save");
    assert_eq!(sanitize_filename("\tname\n"), "name");
}

#[test]
fn sanitize_keeps_inner_dots_and_leading_dots() {
    assert_eq!(sanitize_filename("v1.2.3"), "v1.2.3");
    assert_eq!(sanitize_filename(".hidden"), ".hidden");
}

#[test]
fn sanitize_is_idempotent_on_ordinary_names() {
    for name in ["  A<B>  ", "Game: Remastered?", "x...", "", "no-change"] {
        let once = sanitize_filename(name);
        assert_eq!(sanitize_filename(&once), once);
    }
}

#[test]
fn sanitize_exposes_space_behind_trailing_dot() {
    // trimming the trailing dot uncovers a space; a second pass removes it
    assert_eq!(sanitize_filename("a ."), "a ");
    assert_eq!(sanitize_filename("a "), "a");
}

#[test]
fn stamp_formats_and_parses_back() {
    let st = stamp(2024, 1, 15, 12, 0, 0);
    let stem = encode_backup_stem("Game", &st);
    assert_eq!(stem, "Game-Backup-20240115-120000");
    let name = format!("{stem}.zip");
    assert_eq!(parse_stamp_from_name(&name), Some(st));
}

#[test]
fn extra_backup_stem_uses_its_own_marker() {
    let st = stamp(2031, 12, 31, 23, 59, 59);
    let stem = encode_extra_backup_stem("Game", &st);
    assert_eq!(stem, "Game-ExtraBackup-20311231-235959");
}

#[test]
fn stamp_parse_rejects_malformed_tags() {
    let to_chars = |s: &str| s.chars().collect::<Vec<char>>();
    assert_eq!(parse_stamp(&to_chars("20240115-120000")), Some(stamp(2024, 1, 15, 12, 0, 0)));
    assert_eq!(parse_stamp(&to_chars("20240115t120000")), None);
    assert_eq!(parse_stamp(&to_chars("2024015-120000")), None);
    assert_eq!(parse_stamp(&to_chars("20240230-120000")), None); // no such day
    assert_eq!(parse_stamp(&to_chars("20240115-250000")), None); // no such hour
    assert_eq!(parse_stamp(&to_chars("20240229-120000")), Some(stamp(2024, 2, 29, 12, 0, 0))); // leap day
    assert_eq!(parse_stamp(&to_chars("20230229-120000")), None); // not a leap year
}

#[test]
fn decode_uses_first_marker_and_stops_at_dot() {
    assert_eq!(
        parse_stamp_from_name("My-Game-Backup-20240115-120000.zip"),
        Some(stamp(2024, 1, 15, 12, 0, 0))
    );
    assert_eq!(parse_stamp_from_name("plain-name.zip"), None);
    assert_eq!(parse_stamp_from_name("My-Game-Backup-garbled.zip"), None);
}

#[test]
fn decode_millis_agrees_with_the_time_zone_library() {
    let name = "Game-Backup-20240115-120000.zip";
    let naive = chrono::NaiveDate::from_ymd_opt(2024, 1, 15)
        .unwrap()
        .and_hms_opt(12, 0, 0)
        .unwrap();
    let expected = chrono::TimeZone::from_local_datetime(&chrono::Local, &naive)
        .single()
        .map(|t| t.timestamp_millis());
    assert_eq!(decode_timestamp_millis(name), expected);
    assert_eq!(decode_timestamp_millis("nothing-here.zip"), None);
}

#[test]
fn sidecar_name_swaps_the_extension() {
    assert_eq!(sidecar_name("A-Backup-20240101-000000.zip"), "A-Backup-20240101-000000.txt");
    assert_eq!(sidecar_name("noext"), "noext.txt");
    assert_eq!(sidecar_name("a.b.c"), "a.b.txt");
    assert_eq!(sidecar_name(".hidden"), ".hidden.txt");
}
