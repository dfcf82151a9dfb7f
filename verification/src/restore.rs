//! The restore orchestrator: a staged, recoverable procedure that takes a
//! live directory from its current state to the state captured in a chosen
//! archive. The stages are fixed — check, protective snapshot, removal,
//! extraction, bookkeeping — and the ordering is structural: the machine
//! only ever hands the host the action of its current phase, and a failed
//! extraction is the one place a rollback is issued. The host performs the
//! filesystem work and reports each outcome back.

use vstd::prelude::*;

use crate::{CoreError, ErrorKind};
use crate::clock::{decode_timestamp_millis, now_epoch_millis};
use crate::config::{clone_app_config, clone_string, clone_opt_string, error_text, update_last_save,
    AppConfig};
use crate::names::{
    decode_stamp_spec, encode_extra_backup_stem, extra_backup_stem_spec, find_last_dot,
    sanitize_filename, sanitize_spec,
};
use crate::paths::{file_name_spec, join_path, join_spec, path_file_name};
use crate::stamp::Stamp;
use crate::strutil::{chars_to_string, extend_range, own_string, str_to_chars};

verus! {

/// The stage a restore failure is tagged with.
#[derive(Clone, Copy, PartialEq, Eq, Structural, Debug)]
pub enum RestoreStage {
    Check,
    ExtraBackup,
    Delete,
    Extract,
    UpdateConfig,
}

/// The textual code of each stage.
pub open spec fn stage_code(s: RestoreStage) -> Seq<char> {
    match s {
        RestoreStage::Check => seq!['C', 'H', 'E', 'C', 'K'],
        RestoreStage::ExtraBackup => seq![
            'E',
            'X',
            'T',
            'R',
            'A',
            '_',
            'B',
            'A',
            'C',
            'K',
            'U',
            'P',
        ],
        RestoreStage::Delete => seq!['D', 'E', 'L', 'E', 'T', 'E'],
        RestoreStage::Extract => seq!['E', 'X', 'T', 'R', 'A', 'C', 'T'],
        RestoreStage::UpdateConfig => seq![
            'U',
            'P',
            'D',
            'A',
            'T',
            'E',
            '_',
            'C',
            'O',
            'N',
            'F',
            'I',
            'G',
        ],
    }
}

impl RestoreStage {
    /// The code under which the stage appears in failure messages.
    pub fn as_code(&self) -> (r: &'static str)
        ensures
            r@ == stage_code(*self),
    {
        match self {
            RestoreStage::Check => {
                proof {
                    reveal_strlit("CHECK");
                    assert("CHECK"@ =~= stage_code(RestoreStage::Check));
                }
                "CHECK"
            },
            RestoreStage::ExtraBackup => {
                proof {
                    reveal_strlit("EXTRA_BACKUP");
                    assert("EXTRA_BACKUP"@ =~= stage_code(RestoreStage::ExtraBackup));
                }
                "EXTRA_BACKUP"
            },
            RestoreStage::Delete => {
                proof {
                    reveal_strlit("DELETE");
                    assert("DELETE"@ =~= stage_code(RestoreStage::Delete));
                }
                "DELETE"
            },
            RestoreStage::Extract => {
                proof {
                    reveal_strlit("EXTRACT");
                    assert("EXTRACT"@ =~= stage_code(RestoreStage::Extract));
                }
                "EXTRACT"
            },
            RestoreStage::UpdateConfig => {
                proof {
                    reveal_strlit("UPDATE_CONFIG");
                    assert("UPDATE_CONFIG"@ =~= stage_code(RestoreStage::UpdateConfig));
                }
                "UPDATE_CONFIG"
            },
        }
    }
}

/// A failure message tagged with its stage: `[CODE] message`.
pub open spec fn stage_err_spec(stage: RestoreStage, msg: Seq<char>) -> Seq<char> {
    seq!['['] + stage_code(stage) + seq![']', ' '] + msg
}

/// Prefixes a failure message with the stage it belongs to.
pub fn stage_err(stage: RestoreStage, msg: &str) -> (r: String)
    ensures
        r@ == stage_err_spec(stage, msg@),
{
    let mut v: Vec<char> = Vec::new();
    v.push('[');
    let code = str_to_chars(stage.as_code());
    let clen = code.len();
    extend_range(&mut v, &code, 0, clen);
    v.push(']');
    v.push(' ');
    let m = str_to_chars(msg);
    let mlen = m.len();
    extend_range(&mut v, &m, 0, mlen);
    proof {
        assert(code@.subrange(0, code@.len() as int) =~= code@);
        assert(m@.subrange(0, m@.len() as int) =~= m@);
        assert(v@ =~= stage_err_spec(stage, msg@));
    }
    chars_to_string(&v)
}

/// A restore failure: the stage it happened in, its classification, and a
/// tagged message.
#[derive(Debug)]
pub struct RestoreError {
    pub stage: RestoreStage,
    pub kind: ErrorKind,
    pub message: String,
}

/// What a successful restore reports back.
#[derive(Debug)]
pub struct RestoreResponse {
    pub config: AppConfig,
    pub restored_path: String,
    pub backup_file: String,
    pub extra_backup_path: Option<String>,
    pub timestamp: i64,
}

/// The phases of the staged procedure, in the one order they can run.
#[derive(Clone, Copy, PartialEq, Eq, Structural, Debug)]
pub enum RestorePhase {
    Snapshotting,
    Removing,
    Preparing,
    Extracting,
    Finishing,
}

/// The filesystem work the host performs for the current phase.
#[derive(Debug)]
pub enum RestoreAction {
    MakeSnapshot { source_dir: String, archive_path: String, note_path: String, note_text: String },
    MoveToTrash { path: String },
    PrepareTarget { path: String },
    ExtractArchive { archive_path: String, dest_dir: String },
}

/// A terminal failure: the error to report, and the best-effort recovery
/// the host should attempt first — removing the half-written target, and
/// re-extracting the protective snapshot into it when one was taken. The
/// recovery's own outcome never replaces the error.
#[derive(Debug)]
pub struct RestoreAbort {
    pub cleanup_target: Option<String>,
    pub rollback_archive: Option<String>,
    pub error: RestoreError,
}

/// The orchestrator's state between two host actions.
#[derive(Debug)]
pub struct RestoreMachine {
    pub phase: RestorePhase,
    pub game_name: String,
    pub backup_path: String,
    pub target_path: String,
    pub snapshot_path: Option<String>,
    pub snapshot_note_path: Option<String>,
    pub target_existed: bool,
}

impl RestoreMachine {
    /// The structural ordering invariant: a snapshot is only ever taken of
    /// a target that existed, the snapshot phase only runs when one is
    /// due, and removal only happens to a target that existed.
    pub open spec fn wf(self) -> bool {
        &&& (self.snapshot_path is Some ==> self.target_existed)
        &&& (self.snapshot_path is Some <==> self.snapshot_note_path is Some)
        &&& (self.phase is Snapshotting ==> self.snapshot_path is Some)
        &&& (self.phase is Removing ==> self.target_existed)
    }
}

/// The `.zip` file name of a stem.
pub open spec fn zip_name_spec(stem: Seq<char>) -> Seq<char> {
    stem + seq!['.', 'z', 'i', 'p']
}

/// The `.txt` file name of a stem.
pub open spec fn txt_name_spec(stem: Seq<char>) -> Seq<char> {
    stem + seq!['.', 't', 'x', 't']
}

/// Appends a `.zip` extension to a stem.
pub fn zip_name(stem: &str) -> (r: String)
    ensures
        r@ == zip_name_spec(stem@),
{
    let mut v = str_to_chars(stem);
    v.push('.');
    v.push('z');
    v.push('i');
    v.push('p');
    assert(v@ =~= zip_name_spec(stem@));
    chars_to_string(&v)
}

/// Appends a `.txt` extension to a stem.
pub fn txt_name(stem: &str) -> (r: String)
    ensures
        r@ == txt_name_spec(stem@),
{
    let mut v = str_to_chars(stem);
    v.push('.');
    v.push('t');
    v.push('x');
    v.push('t');
    assert(v@ =~= txt_name_spec(stem@));
    chars_to_string(&v)
}

/// The extension of a file name: the text after its last dot.
pub open spec fn extension_spec(name: Seq<char>) -> Option<Seq<char>> {
    match find_last_dot(name) {
        None => None,
        Some(i) => Some(name.skip(i + 1)),
    }
}

/// The one archive extension a restore currently supports, compared
/// without regard to ASCII case.
pub open spec fn is_zip_extension(e: Seq<char>) -> bool {
    e.len() == 3 && (e[0] == 'z' || e[0] == 'Z') && (e[1] == 'i' || e[1] == 'I') && (e[2] == 'p'
        || e[2] == 'P')
}

fn extension_of(name: &str) -> (r: Option<String>)
    ensures
        match r {
            Some(e) => Some(e@) == extension_spec(name@),
            None => extension_spec(name@) is None,
        },
{
    let v = str_to_chars(name);
    match crate::names::last_dot_index(&v) {
        None => None,
        Some(i) => {
            proof {
                crate::names::lemma_last_dot_bounds(v@);
            }
            let mut out: Vec<char> = Vec::new();
            let vlen = v.len();
            extend_range(&mut out, &v, i + 1, vlen);
            assert(out@ =~= extension_spec(name@)->Some_0);
            Some(chars_to_string(&out))
        },
    }
}

fn is_zip_ext_exec(e: &String) -> (r: bool)
    ensures
        r == is_zip_extension(e@),
{
    let n = e.as_str().unicode_len();
    if n != 3 {
        return false;
    }
    let c0 = e.as_str().get_char(0);
    let c1 = e.as_str().get_char(1);
    let c2 = e.as_str().get_char(2);
    (c0 == 'z' || c0 == 'Z') && (c1 == 'i' || c1 == 'I') && (c2 == 'p' || c2 == 'P')
}

/// Checks the chosen archive and the resolved target, decides whether a
/// protective snapshot is due, and starts the staged procedure. Nothing
/// has been touched when this fails: the archive must exist, carry the
/// one supported extension, and the target must have resolved.
pub fn begin_restore(
    game_name: &str,
    backup_path: &str,
    archive_exists: bool,
    target: Result<String, CoreError>,
    extra_backup_enabled: bool,
    target_exists: bool,
    snapshot_dir: &str,
    st: &Stamp,
) -> (r: Result<RestoreMachine, RestoreError>)
    requires
        st.valid(),
    ensures
        match r {
            Ok(m) => {
                &&& archive_exists
                &&& extension_spec(file_name_spec(backup_path@)) is Some
                &&& is_zip_extension(extension_spec(file_name_spec(backup_path@))->Some_0)
                &&& target is Ok
                &&& m.wf()
                &&& m.game_name@ == game_name@
                &&& m.backup_path@ == backup_path@
                &&& m.target_path@ == target->Ok_0@
                &&& m.target_existed == target_exists
                &&& (m.snapshot_path is Some <==> (extra_backup_enabled && target_exists))
                &&& (m.snapshot_path is Some ==> m.snapshot_path->Some_0@ == join_spec(
                    snapshot_dir@,
                    zip_name_spec(extra_backup_stem_spec(sanitize_spec(game_name@), *st)),
                ) && m.snapshot_note_path->Some_0@ == join_spec(
                    snapshot_dir@,
                    txt_name_spec(extra_backup_stem_spec(sanitize_spec(game_name@), *st)),
                ))
                &&& m.phase == (if extra_backup_enabled && target_exists {
                    RestorePhase::Snapshotting
                } else if target_exists {
                    RestorePhase::Removing
                } else {
                    RestorePhase::Preparing
                })
            },
            Err(e) => {
                &&& e.stage == RestoreStage::Check
                &&& (exists|m: Seq<char>| e.message@ == stage_err_spec(RestoreStage::Check, m))
                &&& (!archive_exists && e.kind == ErrorKind::NotFound) || (archive_exists
                    && extension_spec(file_name_spec(backup_path@)) is None && e.kind
                    == ErrorKind::InvalidInput) || (archive_exists && extension_spec(
                    file_name_spec(backup_path@),
                ) is Some && !is_zip_extension(extension_spec(file_name_spec(backup_path@))->Some_0)
                    && e.kind == ErrorKind::PolicyViolation) || (archive_exists && extension_spec(
                    file_name_spec(backup_path@),
                ) is Some && is_zip_extension(extension_spec(file_name_spec(backup_path@))->Some_0)
                    && target is Err && e.kind == target->Err_0.kind)
            },
        },
{
    if !archive_exists {
        return Err(
            RestoreError {
                stage: RestoreStage::Check,
                kind: ErrorKind::NotFound,
                message: stage_err(RestoreStage::Check, "the archive file does not exist"),
            },
        );
    }
    let fname = path_file_name(backup_path);
    match extension_of(fname.as_str()) {
        None => {
            return Err(
                RestoreError {
                    stage: RestoreStage::Check,
                    kind: ErrorKind::InvalidInput,
                    message: stage_err(RestoreStage::Check, "the archive has no recognizable extension"),
                },
            );
        },
        Some(ext) => {
            if !is_zip_ext_exec(&ext) {
                return Err(
                    RestoreError {
                        stage: RestoreStage::Check,
                        kind: ErrorKind::PolicyViolation,
                        message: stage_err(RestoreStage::Check, "only .zip archives can be restored"),
                    },
                );
            }
        },
    }
    let target_path = match target {
        Err(e) => {
            return Err(
                RestoreError {
                    stage: RestoreStage::Check,
                    kind: e.kind,
                    message: stage_err(RestoreStage::Check, e.message.as_str()),
                },
            );
        },
        Ok(p) => p,
    };
    let protect = extra_backup_enabled && target_exists;
    let (snapshot_path, snapshot_note_path) = if protect {
        let safe = sanitize_filename(game_name);
        let stem = encode_extra_backup_stem(safe.as_str(), st);
        let archive = join_path(snapshot_dir, zip_name(stem.as_str()).as_str());
        let note = join_path(snapshot_dir, txt_name(stem.as_str()).as_str());
        (Some(archive), Some(note))
    } else {
        (None, None)
    };
    let phase = if protect {
        RestorePhase::Snapshotting
    } else if target_exists {
        RestorePhase::Removing
    } else {
        RestorePhase::Preparing
    };
    Ok(
        RestoreMachine {
            phase,
            game_name: own_string(game_name),
            backup_path: own_string(backup_path),
            target_path,
            snapshot_path,
            snapshot_note_path,
            target_existed: target_exists,
        },
    )
}

impl RestoreMachine {
    /// The action the host must perform for the current phase. The
    /// snapshot is taken before anything is removed, removal happens
    /// before the target is re-created, and extraction comes last.
    pub fn next_action(&self) -> (a: RestoreAction)
        requires
            self.wf(),
            !(self.phase is Finishing),
        ensures
            match self.phase {
                RestorePhase::Snapshotting => a matches RestoreAction::MakeSnapshot {
                    source_dir,
                    archive_path,
                    note_path,
                    note_text: _,
                } && source_dir@ == self.target_path@ && archive_path@
                    == self.snapshot_path->Some_0@ && note_path@
                    == self.snapshot_note_path->Some_0@,
                RestorePhase::Removing => a matches RestoreAction::MoveToTrash { path } && path@
                    == self.target_path@,
                RestorePhase::Preparing => a matches RestoreAction::PrepareTarget { path } && path@
                    == self.target_path@,
                RestorePhase::Extracting => a matches RestoreAction::ExtractArchive {
                    archive_path,
                    dest_dir,
                } && archive_path@ == self.backup_path@ && dest_dir@ == self.target_path@,
                RestorePhase::Finishing => false,
            },
    {
        match self.phase {
            RestorePhase::Snapshotting => {
                let archive_path = match &self.snapshot_path {
                    Some(p) => clone_string(p),
                    None => {
                        proof {
                            assert(false);
                        }
                        String::new()
                    },
                };
                let note_path = match &self.snapshot_note_path {
                    Some(p) => clone_string(p),
                    None => {
                        proof {
                            assert(false);
                        }
                        String::new()
                    },
                };
                RestoreAction::MakeSnapshot {
                    source_dir: clone_string(&self.target_path),
                    archive_path,
                    note_path,
                    note_text: error_text(
                        "protective snapshot taken automatically before a restore; extract it to return to the prior state",
                    ),
                }
            },
            RestorePhase::Removing => RestoreAction::MoveToTrash {
                path: clone_string(&self.target_path),
            },
            RestorePhase::Preparing => RestoreAction::PrepareTarget {
                path: clone_string(&self.target_path),
            },
            RestorePhase::Extracting => RestoreAction::ExtractArchive {
                archive_path: clone_string(&self.backup_path),
                dest_dir: clone_string(&self.target_path),
            },
            // unreachable: the precondition rules the finishing phase out
            RestorePhase::Finishing => RestoreAction::PrepareTarget {
                path: clone_string(&self.target_path),
            },
        }
    }

    /// Advances the machine on the outcome the host reported for the
    /// current phase's action. A failure ends the procedure with an error
    /// tagged by the failing stage; only a failed extraction carries a
    /// recovery: remove the half-written target, and when a protective
    /// snapshot was taken, extract it back into place. The snapshot paths
    /// and the target never change along the way.
    pub fn on_result(self, outcome: Result<(), String>) -> (r: Result<RestoreMachine, RestoreAbort>)
        requires
            self.wf(),
            !(self.phase is Finishing),
        ensures
            match r {
                Ok(m) => {
                    &&& outcome is Ok
                    &&& m.wf()
                    &&& m.game_name@ == self.game_name@
                    &&& m.backup_path@ == self.backup_path@
                    &&& m.target_path@ == self.target_path@
                    &&& m.snapshot_path == self.snapshot_path
                    &&& m.snapshot_note_path == self.snapshot_note_path
                    &&& m.target_existed == self.target_existed
                    &&& m.phase == (match self.phase {
                        RestorePhase::Snapshotting => RestorePhase::Removing,
                        RestorePhase::Removing => RestorePhase::Preparing,
                        RestorePhase::Preparing => RestorePhase::Extracting,
                        RestorePhase::Extracting => RestorePhase::Finishing,
                        RestorePhase::Finishing => RestorePhase::Finishing,
                    })
                },
                Err(abort) => {
                    &&& outcome is Err
                    &&& abort.error.kind == ErrorKind::IoFailure
                    &&& abort.error.stage == (match self.phase {
                        RestorePhase::Snapshotting => RestoreStage::ExtraBackup,
                        RestorePhase::Removing => RestoreStage::Delete,
                        RestorePhase::Preparing => RestoreStage::Extract,
                        RestorePhase::Extracting => RestoreStage::Extract,
                        RestorePhase::Finishing => RestoreStage::Extract,
                    })
                    &&& abort.error.message@ == stage_err_spec(
                        abort.error.stage,
                        outcome->Err_0@,
                    )
                    &&& (self.phase is Extracting ==> abort.cleanup_target is Some
                        && abort.cleanup_target->Some_0@ == self.target_path@
                        && abort.rollback_archive == self.snapshot_path)
                    &&& (!(self.phase is Extracting) ==> abort.cleanup_target is None
                        && abort.rollback_archive is None)
                },
            },
    {
        match outcome {
            Ok(()) => {
                let phase = match self.phase {
                    RestorePhase::Snapshotting => RestorePhase::Removing,
                    RestorePhase::Removing => RestorePhase::Preparing,
                    RestorePhase::Preparing => RestorePhase::Extracting,
                    RestorePhase::Extracting => RestorePhase::Finishing,
                    RestorePhase::Finishing => RestorePhase::Finishing,
                };
                Ok(RestoreMachine { phase, ..self })
            },
            Err(msg) => {
                let stage = match self.phase {
                    RestorePhase::Snapshotting => RestoreStage::ExtraBackup,
                    RestorePhase::Removing => RestoreStage::Delete,
                    RestorePhase::Preparing => RestoreStage::Extract,
                    RestorePhase::Extracting => RestoreStage::Extract,
                    RestorePhase::Finishing => RestoreStage::Extract,
                };
                let message = stage_err(stage, msg.as_str());
                let (cleanup_target, rollback_archive) = match self.phase {
                    RestorePhase::Extracting => (
                        Some(clone_string(&self.target_path)),
                        clone_opt_string(&self.snapshot_path),
                    ),
                    _ => (None, None),
                };
                Err(
                    RestoreAbort {
                        cleanup_target,
                        rollback_archive,
                        error: RestoreError { stage, kind: ErrorKind::IoFailure, message },
                    },
                )
            },
        }
    }
}

/// The instant a restore is recorded under, once the decoded name value
/// and the present moment are fixed: the decoded value wins, then the
/// archive's modification time, then the present moment.
pub open spec fn restore_ts_spec(
    name_millis: Option<i64>,
    modified_millis: Option<i64>,
    now_millis: i64,
) -> i64 {
    match name_millis {
        Some(t) => t,
        None => match modified_millis {
            Some(m) => m,
            None => now_millis,
        },
    }
}

/// Picks the recorded instant from the three sources, in their fixed
/// order of preference.
pub fn choose_restore_timestamp(
    name_millis: Option<i64>,
    modified_millis: Option<i64>,
    now_millis: i64,
) -> (r: i64)
    ensures
        r == restore_ts_spec(name_millis, modified_millis, now_millis),
{
    match name_millis {
        Some(t) => t,
        None => match modified_millis {
            Some(m) => m,
            None => now_millis,
        },
    }
}

/// The instant a finished restore is recorded under: the stamp embedded
/// in the archive's name when it decodes (the value is the time zone's),
/// else the archive's modification time, else the present moment (the
/// clock's). `choose_restore_timestamp` fixes the choice for every value
/// of the two readings.
pub fn resolve_restore_timestamp(backup_path: &str, modified_millis: Option<i64>) -> (r: i64)
    ensures
        exists|nm: Option<i64>, now: i64|
            (nm is Some ==> decode_stamp_spec(file_name_spec(backup_path@)) is Some)
                && r == #[trigger] restore_ts_spec(nm, modified_millis, now),
        decode_stamp_spec(file_name_spec(backup_path@)) is None && modified_millis is Some
            ==> r == modified_millis->Some_0,
{
    let fname = path_file_name(backup_path);
    let name_millis = decode_timestamp_millis(fname.as_str());
    let now_millis = now_epoch_millis();
    let r = choose_restore_timestamp(name_millis, modified_millis, now_millis);
    proof {
        assert((name_millis is Some ==> decode_stamp_spec(file_name_spec(backup_path@)) is Some)
            && r == restore_ts_spec(name_millis, modified_millis, now_millis));
    }
    r
}

/// Finishes a restore whose extraction succeeded: derives the result
/// timestamp, records it against the entity in the configuration
/// document, and reports the outcome. A failure here is bookkeeping only
/// — the filesystem already holds the restored state — and leaves the
/// document unchanged.
pub fn finish_restore(
    m: RestoreMachine,
    config: &mut AppConfig,
    modified_millis: Option<i64>,
) -> (r: Result<RestoreResponse, RestoreError>)
    requires
        m.wf(),
        m.phase is Finishing,
    ensures
        match r {
            Ok(resp) => {
                &&& crate::config::first_game_index(old(config).games@, m.game_name@) is Some
                &&& resp.restored_path@ == m.target_path@
                &&& resp.backup_file@ == m.backup_path@
                &&& (resp.extra_backup_path is Some <==> m.snapshot_path is Some)
                &&& (resp.extra_backup_path is Some ==> resp.extra_backup_path->Some_0@
                    == m.snapshot_path->Some_0@)
                &&& resp.config.games@ == final(config).games@
                &&& final(config).games@ == old(config).games@.update(
                    crate::config::first_game_index(old(config).games@, m.game_name@)->Some_0,
                    (crate::config::GameEntry {
                        last_save: Some(resp.timestamp),
                        ..old(config).games@[crate::config::first_game_index(
                            old(config).games@,
                            m.game_name@,
                        )->Some_0]
                    }),
                )
                &&& (decode_stamp_spec(file_name_spec(m.backup_path@)) is None && modified_millis
                    is Some ==> resp.timestamp == modified_millis->Some_0)
                &&& (exists|nm: Option<i64>, now: i64|
                    (nm is Some ==> decode_stamp_spec(file_name_spec(m.backup_path@)) is Some)
                        && resp.timestamp == #[trigger] restore_ts_spec(nm, modified_millis, now))
            },
            Err(e) => {
                &&& e.stage == RestoreStage::UpdateConfig
                &&& e.kind == ErrorKind::NotFound
                &&& (exists|m: Seq<char>| e.message@ == stage_err_spec(
                    RestoreStage::UpdateConfig,
                    m,
                ))
                &&& crate::config::first_game_index(old(config).games@, m.game_name@) is None
                &&& *final(config) == *old(config)
            },
        },
        final(config).settings@ == old(config).settings@,
        final(config).version == old(config).version,
{
    let ts = resolve_restore_timestamp(m.backup_path.as_str(), modified_millis);
    match update_last_save(config, m.game_name.as_str(), ts) {
        Err(e) => Err(
            RestoreError {
                stage: RestoreStage::UpdateConfig,
                kind: ErrorKind::NotFound,
                message: stage_err(RestoreStage::UpdateConfig, e.message.as_str()),
            },
        ),
        Ok(()) => Ok(
            RestoreResponse {
                config: clone_app_config(config),
                restored_path: m.target_path,
                backup_file: m.backup_path,
                extra_backup_path: m.snapshot_path,
                timestamp: ts,
            },
        ),
    }
}

} // verus!
