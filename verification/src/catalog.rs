//! The catalog: which files of the backup directory are listed as
//! archives of an entity, how each one's display timestamp and annotation
//! are resolved, and how the listing is ordered. The directory is read by
//! the host; every decision about its contents is made here.

use vstd::prelude::*;

use crate::{CoreError, ErrorKind};
use crate::clock::decode_timestamp_millis;
use crate::config::error_text;
use crate::names::{sanitize_chars, sanitize_spec, sidecar_name, sidecar_name_spec, is_space_char,
    decode_stamp_spec};
use crate::strutil::{
    chars_to_string, ends_with_chars, has_prefix_spec, has_suffix_spec, starts_with_chars,
    str_to_chars,
};

verus! {

/// Where a listed archive's display timestamp came from.
#[derive(Clone, Copy, PartialEq, Eq, Structural, Debug)]
pub enum TimeSource {
    FromName,
    FromModifiedTime,
    Unknown,
}

impl TimeSource {
    /// The identifier under which the source is reported.
    pub fn code(&self) -> (r: &'static str)
        ensures
            r@ == time_source_code(*self),
    {
        match self {
            TimeSource::FromName => {
                proof {
                    reveal_strlit("file-name");
                    assert("file-name"@ =~= time_source_code(TimeSource::FromName));
                }
                "file-name"
            },
            TimeSource::FromModifiedTime => {
                proof {
                    reveal_strlit("modified-time");
                    assert("modified-time"@ =~= time_source_code(TimeSource::FromModifiedTime));
                }
                "modified-time"
            },
            TimeSource::Unknown => {
                proof {
                    reveal_strlit("unknown");
                    assert("unknown"@ =~= time_source_code(TimeSource::Unknown));
                }
                "unknown"
            },
        }
    }
}

/// The textual code of each timestamp source.
pub open spec fn time_source_code(t: TimeSource) -> Seq<char> {
    match t {
        TimeSource::FromName => seq!['f', 'i', 'l', 'e', '-', 'n', 'a', 'm', 'e'],
        TimeSource::FromModifiedTime => seq![
            'm',
            'o',
            'd',
            'i',
            'f',
            'i',
            'e',
            'd',
            '-',
            't',
            'i',
            'm',
            'e',
        ],
        TimeSource::Unknown => seq!['u', 'n', 'k', 'n', 'o', 'w', 'n'],
    }
}

/// One archive of the catalog listing.
#[derive(Debug)]
pub struct BackupEntry {
    pub file_name: String,
    pub file_path: String,
    pub timestamp: Option<i64>,
    pub remark: Option<String>,
    pub size: u64,
    pub time_source: TimeSource,
}

/// One child of the backup directory, as the host listed it.
#[derive(Debug)]
pub struct DirEntryInfo {
    pub name: String,
    pub is_file: bool,
}

/// A file that passed the catalog filter, with the sidecar name its
/// annotation would live under.
#[derive(Debug)]
pub struct Candidate {
    pub file_name: String,
    pub sidecar_name: String,
}

/// What the host gathered about one candidate: its full path, size,
/// modification time and sidecar text, any of which may be unavailable.
#[derive(Debug)]
pub struct CandidateData {
    pub file_name: String,
    pub file_path: String,
    pub size: u64,
    pub modified_millis: Option<i64>,
    pub remark: Option<String>,
}

/// The `.zip` extension.
pub open spec fn zip_suffix() -> Seq<char> {
    seq!['.', 'z', 'i', 'p']
}

/// The `.7z` extension, reserved for a second archive format.
pub open spec fn seven_z_suffix() -> Seq<char> {
    seq!['.', '7', 'z']
}

/// A file name the catalog considers an archive at all.
pub open spec fn allowed_extension(name: Seq<char>) -> bool {
    has_suffix_spec(name, zip_suffix()) || has_suffix_spec(name, seven_z_suffix())
}

/// The name prefix that makes a file an archive of this entity.
pub open spec fn backup_prefix(entity: Seq<char>) -> Seq<char> {
    sanitize_spec(entity) + seq!['-', 'B', 'a', 'c', 'k', 'u', 'p']
}

/// A directory child the catalog lists: a regular file with an allowed
/// extension whose name starts with the entity's prefix.
pub open spec fn is_listed(prefix: Seq<char>, name: Seq<char>, is_file: bool) -> bool {
    is_file && allowed_extension(name) && has_prefix_spec(name, prefix)
}

/// The names of the listed children, in listing order.
pub open spec fn listed_names(prefix: Seq<char>, files: Seq<DirEntryInfo>) -> Seq<Seq<char>>
    decreases files.len(),
{
    if files.len() == 0 {
        Seq::empty()
    } else {
        let rest = listed_names(prefix, files.drop_last());
        if is_listed(prefix, files.last().name@, files.last().is_file) {
            rest.push(files.last().name@)
        } else {
            rest
        }
    }
}

fn backup_prefix_chars(game_name: &str) -> (r: Vec<char>)
    ensures
        r@ == backup_prefix(game_name@),
{
    let v = str_to_chars(game_name);
    let mut p = sanitize_chars(&v);
    p.push('-');
    p.push('B');
    p.push('a');
    p.push('c');
    p.push('k');
    p.push('u');
    p.push('p');
    assert(p@ =~= backup_prefix(game_name@));
    p
}

fn zip_suffix_chars() -> (r: Vec<char>)
    ensures
        r@ == zip_suffix(),
{
    let mut v: Vec<char> = Vec::new();
    v.push('.');
    v.push('z');
    v.push('i');
    v.push('p');
    assert(v@ =~= zip_suffix());
    v
}

fn seven_z_suffix_chars() -> (r: Vec<char>)
    ensures
        r@ == seven_z_suffix(),
{
    let mut v: Vec<char> = Vec::new();
    v.push('.');
    v.push('7');
    v.push('z');
    assert(v@ =~= seven_z_suffix());
    v
}

/// Filters a directory listing down to the archives of an entity: regular
/// files with an allowed extension and the entity's name prefix, each
/// paired with the sidecar name its annotation would live under.
pub fn filter_backup_files(game_name: &str, files: &Vec<DirEntryInfo>) -> (r: Vec<Candidate>)
    ensures
        ({
            let names = listed_names(backup_prefix(game_name@), files@);
            &&& r@.len() == names.len()
            &&& forall|j: int|
                0 <= j < names.len() ==> (#[trigger] r@[j]).file_name@ == names[j]
                    && r@[j].sidecar_name@ == sidecar_name_spec(names[j])
        }),
{
    let prefix = backup_prefix_chars(game_name);
    let zip = zip_suffix_chars();
    let seven = seven_z_suffix_chars();
    let mut out: Vec<Candidate> = Vec::new();
    let mut i: usize = 0;
    while i < files.len()
        invariant
            i <= files@.len(),
            prefix@ == backup_prefix(game_name@),
            zip@ == zip_suffix(),
            seven@ == seven_z_suffix(),
            ({
                let names = listed_names(prefix@, files@.take(i as int));
                &&& out@.len() == names.len()
                &&& forall|j: int|
                    0 <= j < names.len() ==> (#[trigger] out@[j]).file_name@ == names[j]
                        && out@[j].sidecar_name@ == sidecar_name_spec(names[j])
            }),
        decreases files@.len() - i,
    {
        proof {
            assert(files@.take(i + 1).drop_last() =~= files@.take(i as int));
            assert(files@.take(i + 1).last() == files@[i as int]);
        }
        let f = &files[i];
        if f.is_file {
            let name_chars = str_to_chars(f.name.as_str());
            if ends_with_chars(&name_chars, &zip) || ends_with_chars(&name_chars, &seven) {
                if starts_with_chars(&name_chars, &prefix) {
                    let note = sidecar_name(f.name.as_str());
                    out.push(
                        Candidate {
                            file_name: crate::config::clone_string(&f.name),
                            sidecar_name: note,
                        },
                    );
                }
            }
        }
        i = i + 1;
    }
    proof {
        assert(files@.take(files@.len() as int) =~= files@);
    }
    out
}

/// Exactly how a candidate resolves once the epoch value decoded from its
/// name is fixed: the name, path, size and annotation are carried over;
/// a decoded value wins with its source recorded, else the modification
/// time, else the entry is listed without a timestamp.
pub open spec fn entry_resolved(d: CandidateData, name_millis: Option<i64>, e: BackupEntry) -> bool {
    &&& e.file_name@ == d.file_name@
    &&& e.file_path@ == d.file_path@
    &&& e.size == d.size
    &&& (e.remark is Some <==> d.remark is Some)
    &&& (e.remark is Some ==> e.remark->Some_0@ == d.remark->Some_0@)
    &&& (match name_millis {
        Some(t) => e.timestamp == Some(t) && e.time_source is FromName,
        None => match d.modified_millis {
            Some(m) => e.timestamp == Some(m) && e.time_source is FromModifiedTime,
            None => e.timestamp is None && e.time_source is Unknown,
        },
    })
}

/// How a listing entry relates to what the host gathered: it is the exact
/// resolution under some decoded epoch value, and a value can only exist
/// where the name embeds a stamp. The value itself is the time zone's and
/// stays unconstrained; everything past it is fixed by `entry_resolved`.
pub open spec fn entry_rel(d: CandidateData, e: BackupEntry) -> bool {
    exists|nm: Option<i64>|
        (nm is Some ==> decode_stamp_spec(d.file_name@) is Some) && #[trigger] entry_resolved(
            d,
            nm,
            e,
        )
}

/// Resolves one candidate for a given decoded epoch value: the decoded
/// value wins, the file's modification time is the fallback, and an entry
/// with neither is still listed.
pub fn resolve_with(name_millis: Option<i64>, d: CandidateData) -> (e: BackupEntry)
    ensures
        entry_resolved(d, name_millis, e),
{
    let (timestamp, time_source) = match name_millis {
        Some(t) => (Some(t), TimeSource::FromName),
        None => match d.modified_millis {
            Some(m) => (Some(m), TimeSource::FromModifiedTime),
            None => (None, TimeSource::Unknown),
        },
    };
    BackupEntry {
        file_name: d.file_name,
        file_path: d.file_path,
        timestamp,
        remark: d.remark,
        size: d.size,
        time_source,
    }
}

/// Resolves one candidate: decodes the name's stamp through the time zone
/// and hands the outcome to `resolve_with`, which fixes everything else.
pub fn resolve_entry(d: CandidateData) -> (e: BackupEntry)
    ensures
        entry_rel(d, e),
{
    let name_millis = decode_timestamp_millis(d.file_name.as_str());
    let e = resolve_with(name_millis, d);
    proof {
        assert((name_millis is Some ==> decode_stamp_spec(e.file_name@) is Some)
            && entry_resolved(d, name_millis, e));
    }
    e
}

/// The catalog's order: by timestamp, newest first, entries without a
/// timestamp last.
pub open spec fn ts_ge(a: Option<i64>, b: Option<i64>) -> bool {
    match b {
        None => true,
        Some(y) => match a {
            None => false,
            Some(x) => x >= y,
        },
    }
}

/// The listing is ordered descending by timestamp.
pub open spec fn sorted_desc(s: Seq<BackupEntry>) -> bool {
    forall|i: int, j: int|
        0 <= i < j < s.len() ==> ts_ge(#[trigger] s[i].timestamp, #[trigger] s[j].timestamp)
}

/// Inserting an element into a sequence adds exactly it to the multiset
/// of elements.
proof fn lemma_insert_to_multiset(s: Seq<BackupEntry>, p: int, x: BackupEntry)
    requires
        0 <= p <= s.len(),
    ensures
        s.insert(p, x).to_multiset() == s.to_multiset().insert(x),
{
    broadcast use vstd::seq_lib::group_to_multiset_ensures;
    broadcast use vstd::multiset::group_multiset_axioms;

    let t = s.insert(p, x);
    assert(t.remove(p) =~= s);
    assert(t[p] == x);
    assert(t.remove(p).to_multiset() =~= t.to_multiset().remove(x));
    assert(t.to_multiset().contains(x)) by {
        assert(t.contains(x));
    }
    assert(t.to_multiset() =~= s.to_multiset().insert(x));
}

/// The entries of a listing that carry a given timestamp, in their
/// listing order.
pub open spec fn key_filter(s: Seq<BackupEntry>, t: Option<i64>) -> Seq<BackupEntry>
    decreases s.len(),
{
    if s.len() == 0 {
        Seq::empty()
    } else {
        let rest = key_filter(s.drop_last(), t);
        if s.last().timestamp == t {
            rest.push(s.last())
        } else {
            rest
        }
    }
}

proof fn lemma_key_filter_add(a: Seq<BackupEntry>, b: Seq<BackupEntry>, t: Option<i64>)
    ensures
        key_filter(a + b, t) == key_filter(a, t) + key_filter(b, t),
    decreases b.len(),
{
    if b.len() == 0 {
        assert(a + b =~= a);
        assert(key_filter(a, t) + key_filter(b, t) =~= key_filter(a, t));
    } else {
        assert((a + b).drop_last() =~= a + b.drop_last());
        assert((a + b).last() == b.last());
        lemma_key_filter_add(a, b.drop_last(), t);
        if b.last().timestamp == t {
            assert((key_filter(a, t) + key_filter(b.drop_last(), t)).push(b.last()) =~= key_filter(
                a,
                t,
            ) + key_filter(b.drop_last(), t).push(b.last()));
        }
    }
}

proof fn lemma_key_filter_single(x: BackupEntry, t: Option<i64>)
    ensures
        key_filter(seq![x], t) == (if x.timestamp == t {
            seq![x]
        } else {
            Seq::<BackupEntry>::empty()
        }),
{
    assert(seq![x].drop_last() =~= Seq::<BackupEntry>::empty());
    assert(seq![x].last() == x);
    assert(key_filter(Seq::<BackupEntry>::empty(), t) == Seq::<BackupEntry>::empty());
    if x.timestamp == t {
        assert(key_filter(seq![x], t) =~= seq![x]);
    }
}

proof fn lemma_key_filter_none(s: Seq<BackupEntry>, t: Option<i64>)
    requires
        forall|j: int| 0 <= j < s.len() ==> (#[trigger] s[j]).timestamp != t,
    ensures
        key_filter(s, t) == Seq::<BackupEntry>::empty(),
    decreases s.len(),
{
    if s.len() > 0 {
        assert(forall|j: int|
            0 <= j < s.drop_last().len() ==> (#[trigger] s.drop_last()[j]) == s[j]);
        lemma_key_filter_none(s.drop_last(), t);
    }
}

/// Sorts a listing descending by timestamp; no entry appears or
/// disappears, and entries sharing a timestamp — in particular those
/// without one — keep their relative order.
#[verifier::loop_isolation(false)]
pub fn sort_backups(entries: Vec<BackupEntry>) -> (r: Vec<BackupEntry>)
    ensures
        sorted_desc(r@),
        r@.to_multiset() == entries@.to_multiset(),
        r@.len() == entries@.len(),
        forall|t: Option<i64>| #[trigger] key_filter(r@, t) == key_filter(entries@, t),
{
    broadcast use vstd::seq_lib::group_to_multiset_ensures;
    broadcast use vstd::multiset::group_multiset_axioms;

    let mut v = entries;
    if v.len() <= 1 {
        return v;
    }
    let mut i: usize = 1;
    while i < v.len()
        invariant
            1 <= i <= v@.len(),
            v@.len() == entries@.len(),
            v@.to_multiset() == entries@.to_multiset(),
            forall|t: Option<i64>| #[trigger] key_filter(v@, t) == key_filter(entries@, t),
            sorted_desc(v@.take(i as int)),
        decreases v@.len() - i,
    {
        let mut p: usize = 0;
        while p < i && ts_ge_exec(&v[p].timestamp, &v[i].timestamp)
            invariant
                p <= i < v@.len(),
                forall|j: int| 0 <= j < p ==> ts_ge(#[trigger] v@[j].timestamp, v@[i as int].timestamp),
            decreases i - p,
        {
            p = p + 1;
        }
        let ghost before = v@;
        let x = v.remove(i);
        proof {
            assert(before.remove(i as int).to_multiset() =~= before.to_multiset().remove(x));
        }
        v.insert(p, x);
        proof {
            lemma_insert_to_multiset(before.remove(i as int), p as int, x);
            assert(before.to_multiset().contains(x)) by {
                assert(before.contains(x)) by {
                    assert(before[i as int] == x);
                }
            }
            assert(v@.to_multiset() =~= before.to_multiset());
            let now = v@;
            let tk = before.take(i as int);
            assert forall|a: int, b: int|
                0 <= a < b < i + 1 implies ts_ge(
                #[trigger] now[a].timestamp,
                #[trigger] now[b].timestamp,
            ) by {
                if b < p {
                    assert(now[a] == before[a] && now[b] == before[b]);
                    assert(before[a] == tk[a] && before[b] == tk[b]);
                    assert(ts_ge(tk[a].timestamp, tk[b].timestamp));
                } else if a < p && b == p {
                    assert(now[a] == before[a]);
                    assert(now[b] == x);
                    assert(ts_ge(before[a].timestamp, x.timestamp));
                } else if a < p && b > p {
                    assert(now[a] == before[a] && now[b] == before[b - 1]);
                    assert(before[a] == tk[a] && before[b - 1] == tk[b - 1]);
                    assert(ts_ge(tk[a].timestamp, tk[b - 1].timestamp));
                } else if a == p && b > p {
                    assert(now[a] == x && now[b] == before[b - 1]);
                    assert(p < i);
                    assert(!ts_ge(before[p as int].timestamp, x.timestamp));
                    assert(ts_ge(x.timestamp, before[p as int].timestamp));
                    if b - 1 > p {
                        assert(before[p as int] == tk[p as int] && before[b - 1] == tk[b - 1]);
                        assert(ts_ge(tk[p as int].timestamp, tk[b - 1].timestamp));
                    }
                    assert(ts_ge(x.timestamp, before[b - 1].timestamp));
                } else {
                    assert(a > p);
                    assert(now[a] == before[a - 1] && now[b] == before[b - 1]);
                    assert(before[a - 1] == tk[a - 1] && before[b - 1] == tk[b - 1]);
                    assert(ts_ge(tk[a - 1].timestamp, tk[b - 1].timestamp));
                }
            }
            assert(sorted_desc(now.take(i + 1))) by {
                assert(forall|c: int|
                    0 <= c < i + 1 ==> (#[trigger] now.take(i + 1)[c]) == now[c]);
            }
            // stability: the move commutes with every per-timestamp
            // subsequence, because nothing the element jumps over shares
            // its timestamp
            let a1 = before.take(p as int);
            let a2 = before.subrange(p as int, i as int);
            let bb = before.skip(i + 1);
            assert(before =~= a1 + (a2 + (seq![x] + bb)));
            assert(now =~= a1 + (seq![x] + (a2 + bb)));
            assert forall|t: Option<i64>| #[trigger] key_filter(now, t) == key_filter(
                before,
                t,
            ) by {
                lemma_key_filter_add(a1, a2 + (seq![x] + bb), t);
                lemma_key_filter_add(a2, seq![x] + bb, t);
                lemma_key_filter_add(seq![x], bb, t);
                lemma_key_filter_add(a1, seq![x] + (a2 + bb), t);
                lemma_key_filter_add(seq![x], a2 + bb, t);
                lemma_key_filter_add(a2, bb, t);
                lemma_key_filter_single(x, t);
                if x.timestamp == t {
                    assert forall|c: int| 0 <= c < a2.len() implies (#[trigger] a2[c]).timestamp
                        != t by {
                        assert(a2[c] == before[p + c]);
                        assert(!ts_ge(before[p as int].timestamp, x.timestamp));
                        if c > 0 {
                            assert(before[p + c] == tk[p + c] && before[p as int]
                                == tk[p as int]);
                            assert(ts_ge(tk[p as int].timestamp, tk[p + c].timestamp));
                        }
                    }
                    lemma_key_filter_none(a2, t);
                    assert(key_filter(now, t) =~= key_filter(before, t));
                } else {
                    assert(key_filter(now, t) =~= key_filter(before, t));
                }
            }
        }
        i = i + 1;
    }
    proof {
        assert(v@.take(v@.len() as int) =~= v@);
    }
    v
}

/// Compares two optional timestamps in the catalog's order.
fn ts_ge_exec(a: &Option<i64>, b: &Option<i64>) -> (r: bool)
    ensures
        r == ts_ge(*a, *b),
{
    match b {
        None => true,
        Some(y) => match a {
            None => false,
            Some(x) => *x >= *y,
        },
    }
}

/// The listing holds exactly one entry per candidate: some sequence of
/// per-index resolutions has the same entries as the listing, as a
/// multiset. Together with the length this rules out any dropped or
/// duplicated candidate.
pub open spec fn listing_of(data: Seq<CandidateData>, r: Seq<BackupEntry>) -> bool {
    exists|mid: Seq<BackupEntry>|
        #![trigger mid.to_multiset()]
        mid.len() == data.len() && (forall|k: int|
            0 <= k < data.len() ==> entry_rel(data[k], #[trigger] mid[k])) && r.to_multiset()
            == mid.to_multiset()
}

/// Builds the listing: each candidate resolved in place, then the whole
/// ordered descending by timestamp, entries without one last.
#[verifier::loop_isolation(false)]
pub fn list_backups(data: Vec<CandidateData>) -> (r: Vec<BackupEntry>)
    ensures
        sorted_desc(r@),
        r@.len() == data@.len(),
        listing_of(data@, r@),
{
    broadcast use vstd::seq_lib::group_to_multiset_ensures;
    broadcast use vstd::multiset::group_multiset_axioms;

    let mut resolved: Vec<BackupEntry> = Vec::new();
    let mut i: usize = 0;
    let n = data.len();
    let ghost dv = data@;
    let mut rest = data;
    while i < n
        invariant
            i <= n,
            n == dv.len(),
            rest@ == dv.skip(i as int),
            resolved@.len() == i,
            forall|j: int| #![trigger resolved@[j]] 0 <= j < i ==> entry_rel(dv[j], resolved@[j]),
        decreases n - i,
    {
        proof {
            assert(rest@[0] == dv[i as int]);
            assert(rest@.drop_first() =~= dv.skip(i + 1));
        }
        let d = rest.remove(0);
        let e = resolve_entry(d);
        let ghost rsnap = resolved@;
        resolved.push(e);
        proof {
            assert(resolved@[i as int] == e);
            assert forall|j: int| 0 <= j < i as int implies resolved@[j] == rsnap[j] by {}
        }
        i = i + 1;
    }
    let ghost rv = resolved@;
    let out = sort_backups(resolved);
    proof {
        assert(listing_of(dv, out@)) by {
            assert(rv.len() == dv.len());
            assert(forall|k: int| 0 <= k < dv.len() ==> entry_rel(dv[k], #[trigger] rv[k]));
            assert(out@.to_multiset() == rv.to_multiset());
        }
    }
    out
}

/// A string that is empty or consists of white space alone.
pub open spec fn blank_spec(s: Seq<char>) -> bool {
    forall|i: int| 0 <= i < s.len() ==> is_space_char(#[trigger] s[i])
}

fn is_blank(s: &str) -> (r: bool)
    ensures
        r == blank_spec(s@),
{
    let v = str_to_chars(s);
    let mut i: usize = 0;
    while i < v.len()
        invariant
            i <= v@.len(),
            v@ == s@,
            forall|j: int| 0 <= j < i ==> is_space_char(#[trigger] s@[j]),
        decreases v@.len() - i,
    {
        let c = v[i];
        let sp = c == '\t' || c == '\n' || c == '\u{b}' || c == '\u{c}' || c == '\r' || c == ' '
            || c == '\u{85}' || c == '\u{a0}' || c == '\u{1680}' || ('\u{2000}' <= c && c
            <= '\u{200a}') || c == '\u{2028}' || c == '\u{2029}' || c == '\u{202f}' || c
            == '\u{205f}' || c == '\u{3000}';
        if !sp {
            return false;
        }
        i = i + 1;
    }
    true
}

/// What the host must do to an archive's sidecar annotation.
#[derive(Clone, Copy, PartialEq, Eq, Structural, Debug)]
pub enum RemarkUpdate {
    RemoveNote,
    NoChange,
    WriteNote,
}

/// The decided annotation update and the sidecar name it applies to.
#[derive(Debug)]
pub struct RemarkPlan {
    pub action: RemarkUpdate,
    pub note_name: String,
}

/// Decides an annotation update: the file must carry the entity's prefix
/// and the archive must exist; blank text removes the sidecar when there
/// is one (and is a no-op otherwise), anything else overwrites it. The
/// archive itself is never touched.
pub fn update_backup_remark(
    game_name: &str,
    file_name: &str,
    remark: &str,
    archive_exists: bool,
    sidecar_exists: bool,
) -> (r: Result<RemarkPlan, CoreError>)
    ensures
        match r {
            Ok(p) => {
                &&& has_prefix_spec(file_name@, backup_prefix(game_name@))
                &&& archive_exists
                &&& p.note_name@ == sidecar_name_spec(file_name@)
                &&& p.action == (if blank_spec(remark@) {
                    if sidecar_exists {
                        RemarkUpdate::RemoveNote
                    } else {
                        RemarkUpdate::NoChange
                    }
                } else {
                    RemarkUpdate::WriteNote
                })
            },
            Err(e) => {
                &&& (!has_prefix_spec(file_name@, backup_prefix(game_name@)) && e.kind
                    == ErrorKind::InvalidInput) || (has_prefix_spec(
                    file_name@,
                    backup_prefix(game_name@),
                ) && !archive_exists && e.kind == ErrorKind::NotFound)
            },
        },
{
    let prefix = backup_prefix_chars(game_name);
    let name_chars = str_to_chars(file_name);
    if !starts_with_chars(&name_chars, &prefix) {
        return Err(
            CoreError {
                kind: ErrorKind::InvalidInput,
                message: error_text("the file name does not belong to this entity"),
            },
        );
    }
    if !archive_exists {
        return Err(
            CoreError {
                kind: ErrorKind::NotFound,
                message: error_text("no archive file with this name"),
            },
        );
    }
    let note_name = sidecar_name(file_name);
    let action = if is_blank(remark) {
        if sidecar_exists {
            RemarkUpdate::RemoveNote
        } else {
            RemarkUpdate::NoChange
        }
    } else {
        RemarkUpdate::WriteNote
    };
    Ok(RemarkPlan { action, note_name })
}

} // verus!
