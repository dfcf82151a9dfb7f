//! The backup operation: names the archive after the sanitized entity and
//! the current wall-clock stamp, serializes the walked tree into a
//! package, and records the instant against the entity. The host resolves
//! the source directory, walks it, and writes the returned bytes and the
//! optional annotation to disk.

use vstd::prelude::*;

use crate::{CoreError, ErrorKind};
use crate::archive::{archive_tree, package_entries, planned_entries, TreeEntry};
use crate::config::{clone_app_config, first_game_index, update_last_save, AppConfig, GameEntry};
use crate::names::{backup_stem_spec, encode_backup_stem, sanitize_filename, sanitize_spec};
use crate::paths::{join_path, join_spec};
use crate::restore::{txt_name, txt_name_spec, zip_name, zip_name_spec};
use crate::stamp::Stamp;

verus! {

/// What a successful backup reports back.
#[derive(Debug)]
pub struct BackupResponse {
    pub file_name: String,
    pub file_path: String,
    pub timestamp: i64,
    pub remark_path: Option<String>,
    pub config: AppConfig,
}

/// Runs a backup over an already-walked source tree: the archive is named
/// `{sanitized-name}-Backup-{stamp}.zip` under the backup directory, the
/// returned package bytes decode to exactly the tree's planned entries,
/// an annotation path is derived when a remark is given, and the stamp's
/// instant is recorded against the entity. Fails without touching the
/// document when the entity is unknown or the tree cannot be serialized.
pub fn perform_backup(
    game_name: &str,
    backup_dir: &str,
    st: &Stamp,
    now_millis: i64,
    tree: &Vec<TreeEntry>,
    with_remark: bool,
    config: &mut AppConfig,
) -> (r: Result<(BackupResponse, Vec<u8>), CoreError>)
    requires
        st.valid(),
    ensures
        final(config).settings@ == old(config).settings@,
        final(config).version == old(config).version,
        match r {
            Ok(p) => {
                let stem = backup_stem_spec(sanitize_spec(game_name@), *st);
                let resp = p.0;
                &&& resp.file_name@ == zip_name_spec(stem)
                &&& resp.file_path@ == join_spec(backup_dir@, zip_name_spec(stem))
                &&& resp.timestamp == now_millis
                &&& (resp.remark_path is Some <==> with_remark)
                &&& (with_remark ==> resp.remark_path->Some_0@ == join_spec(
                    backup_dir@,
                    txt_name_spec(stem),
                ))
                &&& first_game_index(old(config).games@, game_name@) is Some
                &&& final(config).games@ == old(config).games@.update(
                    first_game_index(old(config).games@, game_name@)->Some_0,
                    (GameEntry {
                        last_save: Some(now_millis),
                        ..old(config).games@[first_game_index(
                            old(config).games@,
                            game_name@,
                        )->Some_0]
                    }),
                )
                &&& resp.config.games@ == final(config).games@
                &&& package_entries(p.1@) == Some(planned_entries(tree@))
            },
            Err(e) => {
                &&& final(config).games@ == old(config).games@
                &&& (e.kind == ErrorKind::IoFailure || (e.kind == ErrorKind::NotFound
                    && first_game_index(old(config).games@, game_name@) is None))
            },
        },
{
    let safe = sanitize_filename(game_name);
    let stem = encode_backup_stem(safe.as_str(), st);
    let file_name = zip_name(stem.as_str());
    let file_path = join_path(backup_dir, file_name.as_str());

    let bytes = match archive_tree(tree) {
        Ok(b) => b,
        Err(e) => {
            return Err(e);
        },
    };

    let remark_path: Option<String> = if with_remark {
        Some(join_path(backup_dir, txt_name(stem.as_str()).as_str()))
    } else {
        None
    };

    match update_last_save(config, game_name, now_millis) {
        Ok(()) => {},
        Err(e) => {
            return Err(e);
        },
    }

    let resp = BackupResponse {
        file_name,
        file_path,
        timestamp: now_millis,
        remark_path,
        config: clone_app_config(config),
    };
    Ok((resp, bytes))
}

} // verus!
