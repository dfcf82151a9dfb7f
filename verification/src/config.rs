//! In-memory model of the configuration document the engine consults:
//! a list of settings, a list of game entries, and a format version.
//! Reading and writing the document itself is the host's concern; the
//! transformations on it are verified here.

use vstd::prelude::*;

use crate::ErrorKind;
use crate::CoreError;

verus! {

/// A configuration value: the shapes of settings the engine reads or
/// carries through.
#[derive(Debug)]
pub enum SettingValue {
    Flag(bool),
    Number(i64),
    Text(String),
}

/// One settings entry.
#[derive(Debug)]
pub struct Setting {
    pub key: String,
    pub value: SettingValue,
}

/// One game entry of the configuration document.
#[derive(Debug)]
pub struct GameEntry {
    pub name: String,
    pub path: String,
    pub icon: String,
    pub last_save: Option<i64>,
    pub kind: Option<String>,
}

/// The configuration document.
#[derive(Debug)]
pub struct AppConfig {
    pub settings: Vec<Setting>,
    pub games: Vec<GameEntry>,
    pub version: u32,
}

/// The value of the first settings entry with the given key, if any.
pub open spec fn lookup_setting(s: Seq<Setting>, key: Seq<char>) -> Option<SettingValue>
    decreases s.len(),
{
    if s.len() == 0 {
        None
    } else if s.first().key@ == key {
        Some(s.first().value)
    } else {
        lookup_setting(s.drop_first(), key)
    }
}

/// Index of the first game entry with the given name, if any.
pub open spec fn first_game_index(games: Seq<GameEntry>, name: Seq<char>) -> Option<int>
    decreases games.len(),
{
    if games.len() == 0 {
        None
    } else if games.first().name@ == name {
        Some(0)
    } else {
        match first_game_index(games.drop_first(), name) {
            None => None,
            Some(i) => Some(i + 1),
        }
    }
}

pub proof fn lemma_first_game_index_bounds(games: Seq<GameEntry>, name: Seq<char>)
    requires
        first_game_index(games, name) is Some,
    ensures
        0 <= first_game_index(games, name)->Some_0 < games.len(),
        games[first_game_index(games, name)->Some_0].name@ == name,
    decreases games.len(),
{
    if games.len() > 0 && games.first().name@ != name {
        lemma_first_game_index_bounds(games.drop_first(), name);
    }
}

/// Character-wise string equality.
pub fn str_eq(a: &str, b: &str) -> (r: bool)
    ensures
        r == (a@ == b@),
{
    let na = a.unicode_len();
    let nb = b.unicode_len();
    if na != nb {
        return false;
    }
    let mut i: usize = 0;
    while i < na
        invariant
            i <= na,
            na == a@.len(),
            na == b@.len(),
            forall|j: int| 0 <= j < i ==> a@[j] == b@[j],
        decreases na - i,
    {
        if a.get_char(i) != b.get_char(i) {
            return false;
        }
        i = i + 1;
    }
    proof {
        assert(a@ =~= b@);
    }
    true
}

/// Reads a boolean setting, falling back to a default when the key is
/// absent or its value is not a flag.
pub fn setting_flag(config: &AppConfig, key: &str, default: bool) -> (r: bool)
    ensures
        r == (match lookup_setting(config.settings@, key@) {
            Some(SettingValue::Flag(b)) => b,
            _ => default,
        }),
{
    let n = config.settings.len();
    let mut i: usize = 0;
    proof {
        assert(config.settings@.skip(0) =~= config.settings@);
    }
    while i < n
        invariant
            i <= n,
            n == config.settings@.len(),
            lookup_setting(config.settings@, key@) == lookup_setting(
                config.settings@.skip(i as int),
                key@,
            ),
        decreases n - i,
    {
        proof {
            assert(config.settings@.skip(i as int).first() == config.settings@[i as int]);
            assert(config.settings@.skip(i as int).drop_first() =~= config.settings@.skip(i + 1));
        }
        if str_eq(config.settings[i].key.as_str(), key) {
            return match &config.settings[i].value {
                SettingValue::Flag(b) => *b,
                _ => default,
            };
        }
        i = i + 1;
    }
    proof {
        assert(config.settings@.skip(n as int).len() == 0);
    }
    default
}

fn has_setting(settings: &Vec<Setting>, key: &str) -> (r: bool)
    ensures
        r == (lookup_setting(settings@, key@) is Some),
{
    let n = settings.len();
    let mut i: usize = 0;
    proof {
        assert(settings@.skip(0) =~= settings@);
    }
    while i < n
        invariant
            i <= n,
            n == settings@.len(),
            lookup_setting(settings@, key@) == lookup_setting(settings@.skip(i as int), key@),
        decreases n - i,
    {
        proof {
            assert(settings@.skip(i as int).first() == settings@[i as int]);
            assert(settings@.skip(i as int).drop_first() =~= settings@.skip(i + 1));
        }
        if str_eq(settings[i].key.as_str(), key) {
            return true;
        }
        i = i + 1;
    }
    proof {
        assert(settings@.skip(n as int).len() == 0);
    }
    false
}

/// The key of the protective-backup policy flag.
pub open spec fn restore_extra_backup_key() -> Seq<char> {
    seq!['r', 'e', 's', 't', 'o', 'r', 'e', 'E', 'x', 't', 'r', 'a', 'B', 'a', 'c', 'k', 'u', 'p']
}

/// The key of the relative-time display flag.
pub open spec fn use_relative_time_key() -> Seq<char> {
    seq!['u', 's', 'e', 'R', 'e', 'l', 'a', 't', 'i', 'v', 'e', 'T', 'i', 'm', 'e']
}

/// Fills in the settings the engine depends on when they are absent:
/// the protective-backup policy flag and the relative-time display flag,
/// both defaulting to enabled. Returns whether anything was added, so the
/// caller knows the document must be written back.
pub fn ensure_settings_defaults(config: &mut AppConfig) -> (changed: bool)
    ensures
        ({
            let s0 = old(config).settings@;
            let s2 = final(config).settings@;
            let missing_reb = lookup_setting(s0, restore_extra_backup_key()) is None;
            let missing_urt = lookup_setting(s0, use_relative_time_key()) is None;
            &&& s2.len() == s0.len() + (if missing_reb {
                1int
            } else {
                0int
            }) + (if missing_urt {
                1int
            } else {
                0int
            })
            &&& s2.take(s0.len() as int) == s0
            &&& missing_reb ==> s2[s0.len() as int].key@ == restore_extra_backup_key()
                && s2[s0.len() as int].value == SettingValue::Flag(true)
            &&& missing_urt ==> s2.last().key@ == use_relative_time_key() && s2.last().value
                == SettingValue::Flag(true)
            &&& changed == (missing_reb || missing_urt)
        }),
        final(config).games@ == old(config).games@,
        final(config).version == old(config).version,
{
    proof {
        reveal_strlit("restoreExtraBackup");
        reveal_strlit("useRelativeTime");
        assert("restoreExtraBackup"@ =~= restore_extra_backup_key());
        assert("useRelativeTime"@ =~= use_relative_time_key());
    }
    let mut changed = false;
    let ghost s0 = config.settings@;
    if !has_setting(&config.settings, "restoreExtraBackup") {
        let key = String::from_str("restoreExtraBackup");
        config.settings.push(Setting { key, value: SettingValue::Flag(true) });
        changed = true;
    }
    proof {
        assert(config.settings@.take(s0.len() as int) =~= s0);
        if config.settings@.len() > s0.len() {
            lemma_lookup_push(s0, config.settings@.last(), use_relative_time_key());
        }
    }
    if !has_setting(&config.settings, "useRelativeTime") {
        let key = String::from_str("useRelativeTime");
        config.settings.push(Setting { key, value: SettingValue::Flag(true) });
        changed = true;
    }
    proof {
        assert(config.settings@.take(s0.len() as int) =~= s0);
    }
    changed
}

/// Records the instant of the latest backup or restore against a game
/// entry. Fails, leaving the document unchanged, when the game is unknown.
pub fn update_last_save(config: &mut AppConfig, game_name: &str, timestamp: i64) -> (r: Result<
    (),
    CoreError,
>)
    ensures
        match r {
            Ok(()) => ({
                let idx = first_game_index(old(config).games@, game_name@);
                &&& idx is Some
                &&& final(config).games@ == old(config).games@.update(
                    idx->Some_0,
                    (GameEntry {
                        last_save: Some(timestamp),
                        ..old(config).games@[idx->Some_0]
                    }),
                )
            }),
            Err(e) => first_game_index(old(config).games@, game_name@) is None && *final(config)
                == *old(config) && e.kind == ErrorKind::NotFound,
        },
        final(config).settings@ == old(config).settings@,
        final(config).version == old(config).version,
{
    let n = config.games.len();
    let mut i: usize = 0;
    proof {
        assert(config.games@.skip(0) =~= config.games@);
    }
    while i < n
        invariant
            i <= n,
            n == config.games@.len(),
            *config == *old(config),
            first_game_index(config.games@, game_name@) == (match first_game_index(
                config.games@.skip(i as int),
                game_name@,
            ) {
                None => None::<int>,
                Some(j) => Some(j + i),
            }),
        decreases n - i,
    {
        proof {
            assert(config.games@.skip(i as int).first() == config.games@[i as int]);
            assert(config.games@.skip(i as int).drop_first() =~= config.games@.skip(i + 1));
        }
        if str_eq(config.games[i].name.as_str(), game_name) {
            let entry = &config.games[i];
            let updated = GameEntry {
                name: clone_string(&entry.name),
                path: clone_string(&entry.path),
                icon: clone_string(&entry.icon),
                last_save: Some(timestamp),
                kind: clone_opt_string(&entry.kind),
            };
            let ghost before = config.games@;
            config.games.set(i, updated);
            assert(config.games@ =~= before.update(
                i as int,
                (GameEntry { last_save: Some(timestamp), ..before[i as int] }),
            ));
            return Ok(());
        }
        i = i + 1;
    }
    proof {
        assert(config.games@.skip(n as int).len() == 0);
    }
    Err(
        CoreError {
            kind: ErrorKind::NotFound,
            message: error_text("no game entry with this name"),
        },
    )
}

/// Sets one settings key to a value: the first entry with the key is
/// replaced, or a new entry is appended when the key is absent.
pub fn update_setting(config: &mut AppConfig, key: String, value: SettingValue)
    ensures
        ({
            let s0 = old(config).settings@;
            let s2 = final(config).settings@;
            match first_setting_index(s0, key@) {
                Some(i) => s2 == s0.update(i, (Setting { key, value })),
                None => s2 == s0.push(Setting { key, value }),
            }
        }),
        final(config).games@ == old(config).games@,
        final(config).version == old(config).version,
{
    let n = config.settings.len();
    let mut i: usize = 0;
    proof {
        assert(config.settings@.skip(0) =~= config.settings@);
    }
    while i < n
        invariant
            i <= n,
            n == config.settings@.len(),
            *config == *old(config),
            first_setting_index(config.settings@, key@) == (match first_setting_index(
                config.settings@.skip(i as int),
                key@,
            ) {
                None => None::<int>,
                Some(j) => Some(j + i),
            }),
        decreases n - i,
    {
        proof {
            assert(config.settings@.skip(i as int).first() == config.settings@[i as int]);
            assert(config.settings@.skip(i as int).drop_first() =~= config.settings@.skip(i + 1));
        }
        if str_eq(config.settings[i].key.as_str(), key.as_str()) {
            config.settings.set(i, Setting { key, value });
            return ;
        }
        i = i + 1;
    }
    proof {
        assert(config.settings@.skip(n as int).len() == 0);
    }
    config.settings.push(Setting { key, value });
}

/// Index of the first settings entry with the given key, if any.
pub open spec fn first_setting_index(s: Seq<Setting>, key: Seq<char>) -> Option<int>
    decreases s.len(),
{
    if s.len() == 0 {
        None
    } else if s.first().key@ == key {
        Some(0)
    } else {
        match first_setting_index(s.drop_first(), key) {
            None => None,
            Some(i) => Some(i + 1),
        }
    }
}

/// The game list in the order a caller asked for: for each requested name,
/// in turn, the first remaining entry with that name; entries never named
/// follow in their original order. No entry is lost or duplicated.
pub open spec fn reorder_spec(games: Seq<GameEntry>, order: Seq<Seq<char>>) -> Seq<GameEntry>
    decreases order.len(),
{
    if order.len() == 0 {
        games
    } else {
        match first_game_index(games, order.first()) {
            None => reorder_spec(games, order.drop_first()),
            Some(i) => seq![games[i]] + reorder_spec(games.remove(i), order.drop_first()),
        }
    }
}

/// Reorders the game entries by the given list of names.
pub fn reorder_games(config: &mut AppConfig, order: &Vec<String>)
    ensures
        final(config).games@ == reorder_spec(old(config).games@, order.deep_view()),
        final(config).settings@ == old(config).settings@,
        final(config).version == old(config).version,
{
    let mut rest: Vec<GameEntry> = Vec::new();
    core::mem::swap(&mut rest, &mut config.games);
    let mut out: Vec<GameEntry> = Vec::new();
    let mut k: usize = 0;
    proof {
        assert(order.deep_view().skip(0) =~= order.deep_view());
        assert(out@ + reorder_spec(rest@, order.deep_view()) =~= reorder_spec(
            old(config).games@,
            order.deep_view(),
        ));
    }
    while k < order.len()
        invariant
            k <= order.len(),
            out@ + reorder_spec(rest@, order.deep_view().skip(k as int)) == reorder_spec(
                old(config).games@,
                order.deep_view(),
            ),
        decreases order.len() - k,
    {
        proof {
            assert(order.deep_view().skip(k as int).first() == order@[k as int]@);
            assert(order.deep_view().skip(k as int).drop_first() =~= order.deep_view().skip(
                k + 1,
            ));
        }
        match find_game(&rest, &order[k]) {
            Some(i) => {
                proof {
                    lemma_first_game_index_bounds(rest@, order@[k as int]@);
                }
                let entry = rest.remove(i);
                out.push(entry);
                assert(out@ + reorder_spec(rest@, order.deep_view().skip(k + 1)) =~= reorder_spec(
                    old(config).games@,
                    order.deep_view(),
                ));
            },
            None => {},
        }
        k = k + 1;
    }
    proof {
        assert(order.deep_view().skip(order.deep_view().len() as int).len() == 0);
        assert(rest@.skip(0) =~= rest@);
    }
    let mut j: usize = 0;
    let rlen = rest.len();
    while j < rlen
        invariant
            j <= rlen,
            rlen == rest@.len(),
            out@ + rest@.skip(j as int) == reorder_spec(old(config).games@, order.deep_view()),
        decreases rlen - j,
    {
        let entry = clone_game_entry(&rest[j]);
        out.push(entry);
        j = j + 1;
        assert(out@ + rest@.skip(j as int) =~= reorder_spec(old(config).games@, order.deep_view()));
    }
    proof {
        assert(out@ =~= reorder_spec(old(config).games@, order.deep_view()));
    }
    config.games = out;
}

/// Index of the first entry of `games` with the given name.
fn find_game(games: &Vec<GameEntry>, name: &String) -> (r: Option<usize>)
    ensures
        match r {
            Some(i) => Some(i as int) == first_game_index(games@, name@),
            None => first_game_index(games@, name@) is None,
        },
{
    let n = games.len();
    let mut i: usize = 0;
    proof {
        assert(games@.skip(0) =~= games@);
    }
    while i < n
        invariant
            i <= n,
            n == games@.len(),
            first_game_index(games@, name@) == (match first_game_index(
                games@.skip(i as int),
                name@,
            ) {
                None => None::<int>,
                Some(j) => Some(j + i),
            }),
        decreases n - i,
    {
        proof {
            assert(games@.skip(i as int).first() == games@[i as int]);
            assert(games@.skip(i as int).drop_first() =~= games@.skip(i + 1));
        }
        if str_eq(games[i].name.as_str(), name.as_str()) {
            return Some(i);
        }
        i = i + 1;
    }
    proof {
        assert(games@.skip(n as int).len() == 0);
    }
    None
}

/// An exact copy of a string.
pub fn clone_string(s: &String) -> (r: String)
    ensures
        r == *s,
{
    s.clone()
}

/// An exact copy of an optional string.
pub fn clone_opt_string(s: &Option<String>) -> (r: Option<String>)
    ensures
        r == *s,
{
    match s {
        Some(x) => Some(clone_string(x)),
        None => None,
    }
}

/// An exact copy of a game entry.
pub fn clone_game_entry(g: &GameEntry) -> (r: GameEntry)
    ensures
        r == *g,
{
    GameEntry {
        name: clone_string(&g.name),
        path: clone_string(&g.path),
        icon: clone_string(&g.icon),
        last_save: g.last_save,
        kind: clone_opt_string(&g.kind),
    }
}

/// An exact copy of a setting value.
pub fn clone_setting_value(v: &SettingValue) -> (r: SettingValue)
    ensures
        r == *v,
{
    match v {
        SettingValue::Flag(b) => SettingValue::Flag(*b),
        SettingValue::Number(n) => SettingValue::Number(*n),
        SettingValue::Text(t) => SettingValue::Text(clone_string(t)),
    }
}

/// An exact copy of the configuration document.
pub fn clone_app_config(c: &AppConfig) -> (r: AppConfig)
    ensures
        r.settings@ == c.settings@,
        r.games@ == c.games@,
        r.version == c.version,
{
    let mut settings: Vec<Setting> = Vec::new();
    let mut i: usize = 0;
    while i < c.settings.len()
        invariant
            i <= c.settings@.len(),
            settings@ == c.settings@.take(i as int),
        decreases c.settings@.len() - i,
    {
        let s = &c.settings[i];
        settings.push(Setting { key: clone_string(&s.key), value: clone_setting_value(&s.value) });
        i = i + 1;
        assert(settings@ =~= c.settings@.take(i as int));
    }
    assert(settings@ =~= c.settings@);
    let mut games: Vec<GameEntry> = Vec::new();
    let mut j: usize = 0;
    while j < c.games.len()
        invariant
            j <= c.games@.len(),
            games@ == c.games@.take(j as int),
        decreases c.games@.len() - j,
    {
        games.push(clone_game_entry(&c.games[j]));
        j = j + 1;
        assert(games@ =~= c.games@.take(j as int));
    }
    assert(games@ =~= c.games@);
    AppConfig { settings, games, version: c.version }
}

/// Builds an owned error message.
pub fn error_text(msg: &str) -> (r: String)
    ensures
        r@ == msg@,
{
    String::from_str(msg)
}

/// Appending an entry with a different key does not change what a lookup
/// finds.
proof fn lemma_lookup_push(s: Seq<Setting>, entry: Setting, key: Seq<char>)
    requires
        entry.key@ != key,
    ensures
        lookup_setting(s.push(entry), key) == lookup_setting(s, key),
    decreases s.len(),
{
    reveal_with_fuel(lookup_setting, 3);
    if s.len() == 0 {
        assert(s.push(entry).first() == entry);
        assert(s.push(entry).drop_first() =~= Seq::<Setting>::empty());
    } else {
        assert(s.push(entry).first() == s.first());
        assert(s.push(entry).drop_first() =~= s.drop_first().push(entry));
        lemma_lookup_push(s.drop_first(), entry, key);
    }
}

} // verus!
