//! The archiver: serializes a directory tree into a single compressed
//! package and reads one back. The tree itself is walked and written by
//! the host; here the entry names are computed, the package is built and
//! decoded in memory through the zip crate, and every entry name read
//! back is sanitized against path traversal before the host may touch the
//! filesystem with it.

use vstd::prelude::*;

use std::io::Cursor;

use crate::{CoreError, ErrorKind};
use crate::strutil::{
    chars_to_string, extend_range, find_from, find_in_chars, lemma_find_from_bounds, str_to_chars,
};

verus! {

/// The writer the package is built with. The zip writer's declaration
/// carries I/O trait bounds the verifier does not know, so the writer is
/// held opaquely in a single private field.
#[verifier::external_body]
pub struct PackageWriter {
    inner: zip::ZipWriter<Cursor<Vec<u8>>>,
}

/// The random-access index a package is read through.
#[verifier::external_type_specification]
#[verifier::external_body]
#[verifier::reject_recursive_types(R)]
pub struct ExZipArchive<R>(zip::ZipArchive<R>);

/// An in-memory byte buffer the writer and the reader run over.
#[verifier::external_type_specification]
#[verifier::external_body]
#[verifier::reject_recursive_types(T)]
pub struct ExCursor<T>(Cursor<T>);

/// The entries a writer holds so far: each one's name and its bytes, in
/// the order they were added. Whether an entry is a directory marker is a
/// property of its name (`name_is_dir`), exactly as the zip reader sees
/// it.
pub uninterp spec fn written_entries(w: PackageWriter) -> Seq<(Seq<char>, Seq<u8>)>;

/// Whether the writer has a file entry open for appending bytes.
pub uninterp spec fn writer_file_open(w: PackageWriter) -> bool;

/// The entries a package index holds: each one's name and its decompressed
/// bytes, in index order.
pub uninterp spec fn stored_entries(a: zip::ZipArchive<Cursor<Vec<u8>>>) -> Seq<
    (Seq<char>, Seq<u8>),
>;

/// The entry table of a finished package, as the zip reader decodes these
/// exact bytes: nothing when the bytes are not a well-formed package.
/// Parsing a package is a function of its bytes alone.
pub uninterp spec fn package_entries(bytes: Seq<u8>) -> Option<Seq<(Seq<char>, Seq<u8>)>>;

/// An entry name the zip format treats as a directory marker: it ends in
/// a separator.
pub open spec fn name_is_dir(name: Seq<char>) -> bool {
    name.len() > 0 && (name.last() == '/' || name.last() == '\\')
}

/// A directory-entry name as the writer records it: a `/` is appended
/// unless the name already ends in a separator.
pub open spec fn dir_entry_recorded(name: Seq<char>) -> Seq<char> {
    if name.len() > 0 && (name.last() == '/' || name.last() == '\\') {
        name
    } else {
        name.push('/')
    }
}

/// Relies on `zip::ZipWriter::new` over a fresh in-memory buffer: the new
/// writer holds no entries and no open file.
#[verifier::external_body]
fn zw_new() -> (w: PackageWriter)
    ensures
        written_entries(w) == Seq::<(Seq<char>, Seq<u8>)>::empty(),
        !writer_file_open(w),
{
    PackageWriter { inner: zip::ZipWriter::new(Cursor::new(Vec::new())) }
}

/// Relies on `zip::ZipWriter::start_file` with deflate compression: on
/// success a new, empty file entry with this exact name is appended and
/// left open for bytes.
#[verifier::external_body]
fn zw_start_file(w: &mut PackageWriter, name: &str) -> (r: Result<(), String>)
    ensures
        r is Ok ==> written_entries(*final(w)) == written_entries(*old(w)).push(
            (name@, Seq::<u8>::empty()),
        ) && writer_file_open(*final(w)),
{
    let options = zip::write::SimpleFileOptions::default().compression_method(
        zip::CompressionMethod::Deflated,
    );
    match w.inner.start_file(name, options) {
        Ok(()) => Ok(()),
        Err(e) => Err(format!("{e}")),
    }
}

/// Relies on `std::io::Write::write_all` on the writer: on success the
/// bytes are appended to the open file entry.
#[verifier::external_body]
fn zw_write_data(w: &mut PackageWriter, data: &Vec<u8>) -> (r: Result<
    (),
    String,
>)
    requires
        writer_file_open(*old(w)),
        written_entries(*old(w)).len() > 0,
    ensures
        r is Ok ==> written_entries(*final(w)) == written_entries(*old(w)).update(
            written_entries(*old(w)).len() - 1,
            (written_entries(*old(w)).last().0, written_entries(*old(w)).last().1 + data@),
        ) && writer_file_open(*final(w)),
{
    match std::io::Write::write_all(&mut w.inner, data.as_slice()) {
        Ok(()) => Ok(()),
        Err(e) => Err(format!("{e}")),
    }
}

/// Relies on `zip::ZipWriter::add_directory`: on success a directory
/// entry is appended under the given name with a `/` appended unless one
/// is already there, and no file entry stays open.
#[verifier::external_body]
fn zw_add_directory(w: &mut PackageWriter, name: &str) -> (r: Result<
    (),
    String,
>)
    ensures
        r is Ok ==> written_entries(*final(w)) == written_entries(*old(w)).push(
            (dir_entry_recorded(name@), Seq::<u8>::empty()),
        ) && !writer_file_open(*final(w)),
{
    let options = zip::write::SimpleFileOptions::default().compression_method(
        zip::CompressionMethod::Deflated,
    );
    match w.inner.add_directory(name, options) {
        Ok(()) => Ok(()),
        Err(e) => Err(format!("{e}")),
    }
}

/// Relies on `zip::ZipWriter::finish` and `Cursor::into_inner`: the
/// finished package as bytes, whose entry table reads back as exactly the
/// entries that were written, in order.
#[verifier::external_body]
fn zw_finish(w: PackageWriter) -> (r: Result<Vec<u8>, String>)
    ensures
        r matches Ok(b) ==> package_entries(b@) == Some(written_entries(w)),
{
    match w.inner.finish() {
        Ok(cursor) => Ok(cursor.into_inner()),
        Err(e) => Err(format!("{e}")),
    }
}

/// Relies on `zip::ZipArchive::new` over an in-memory buffer: the package
/// index, whose entries are the bytes' entry table; a malformed package —
/// one whose bytes decode to no table — is rejected.
#[verifier::external_body]
fn za_open(bytes: Vec<u8>) -> (r: Result<zip::ZipArchive<Cursor<Vec<u8>>>, String>)
    ensures
        r matches Ok(a) ==> package_entries(bytes@) == Some(stored_entries(a)),
        r is Err ==> package_entries(bytes@) is None,
{
    match zip::ZipArchive::new(Cursor::new(bytes)) {
        Ok(a) => Ok(a),
        Err(e) => Err(format!("{e}")),
    }
}

/// Relies on `zip::ZipArchive::len`: how many entries the package holds.
#[verifier::external_body]
fn za_len(a: &zip::ZipArchive<Cursor<Vec<u8>>>) -> (r: usize)
    ensures
        r == stored_entries(*a).len(),
{
    a.len()
}

/// Relies on `zip::ZipArchive::by_index` and the entry's `name`, `is_dir`
/// and `std::io::Read::read_to_end`: the entry at this index as plain
/// values; `is_dir` goes by the name's trailing separator. Reading moves
/// the index's internal reader but not its contents.
#[verifier::external_body]
fn za_entry(a: &mut zip::ZipArchive<Cursor<Vec<u8>>>, i: usize) -> (r: Result<
    (String, bool, Vec<u8>),
    String,
>)
    requires
        i < stored_entries(*old(a)).len(),
    ensures
        stored_entries(*final(a)) == stored_entries(*old(a)),
        r matches Ok(e) ==> (e.0@, e.2@) == stored_entries(*old(a))[i as int] && e.1
            == name_is_dir(e.0@),
{
    match a.by_index(i) {
        Ok(mut entry) => {
            let name = entry.name().to_string();
            let is_dir = entry.is_dir();
            let mut data = Vec::new();
            match std::io::Read::read_to_end(&mut entry, &mut data) {
                Ok(_) => Ok((name, is_dir, data)),
                Err(e) => Err(format!("{e}")),
            }
        },
        Err(e) => Err(format!("{e}")),
    }
}

/// One node of the tree being archived, as the host walked it: its path
/// relative to the root (in host separators), whether it is a directory,
/// and its bytes.
#[derive(Debug)]
pub struct TreeEntry {
    pub path: String,
    pub is_dir: bool,
    pub data: Vec<u8>,
}

/// Every backslash turned into a forward slash: entry names use `/`
/// whatever the host's separator is.
pub open spec fn to_slash(s: Seq<char>) -> Seq<char> {
    s.map(
        |_i: int, c: char|
            if c == '\\' {
                '/'
            } else {
                c
            },
    )
}

/// Trailing slashes removed.
pub open spec fn trim_trailing_slashes(s: Seq<char>) -> Seq<char>
    decreases s.len(),
{
    if s.len() > 0 && s.last() == '/' {
        trim_trailing_slashes(s.drop_last())
    } else {
        s
    }
}

/// The package-entry name of a tree node: separators unified to `/`, and
/// a directory carries exactly one trailing `/` so that empty directories
/// survive a round trip.
pub open spec fn entry_name_spec(path: Seq<char>, is_dir: bool) -> Seq<char> {
    if is_dir {
        trim_trailing_slashes(to_slash(path)).push('/')
    } else {
        to_slash(path)
    }
}

/// Computes the package-entry name of a tree node.
pub fn entry_name(path: &str, is_dir: bool) -> (r: String)
    ensures
        r@ == entry_name_spec(path@, is_dir),
{
    let v = str_to_chars(path);
    let mut w: Vec<char> = Vec::new();
    let mut i: usize = 0;
    while i < v.len()
        invariant
            i <= v.len(),
            w@ == to_slash(v@.take(i as int)),
        decreases v.len() - i,
    {
        let c = v[i];
        if c == '\\' {
            w.push('/');
        } else {
            w.push(c);
        }
        i = i + 1;
        assert(w@ =~= to_slash(v@.take(i as int)));
    }
    assert(v@.take(v@.len() as int) =~= v@);
    if !is_dir {
        return chars_to_string(&w);
    }
    let mut b: usize = w.len();
    assert(w@.take(w@.len() as int) =~= w@);
    while b > 0 && w[b - 1] == '/'
        invariant
            b <= w.len(),
            w@ == to_slash(path@),
            trim_trailing_slashes(w@) == trim_trailing_slashes(w@.take(b as int)),
            forall|j: int| b <= j < w@.len() ==> w@[j] == '/',
        decreases b,
    {
        proof {
            assert(w@.take(b as int).last() == w@[b - 1]);
            assert(w@.take(b as int).drop_last() =~= w@.take(b - 1));
        }
        b = b - 1;
    }
    proof {
        if b > 0 {
            assert(w@.take(b as int).last() == w@[b - 1]);
        }
        assert(trim_trailing_slashes(w@.take(b as int)) == w@.take(b as int));
        assert(w@.take(w@.len() as int) =~= w@);
    }
    let mut out: Vec<char> = Vec::new();
    extend_range(&mut out, &w, 0, b);
    out.push('/');
    assert(out@ =~= entry_name_spec(path@, true));
    chars_to_string(&out)
}

/// The entries a package built from these tree nodes holds, in order:
/// nodes with an empty path (the root itself) are skipped, directories
/// become empty marker entries, files carry their bytes.
pub open spec fn planned_entries(s: Seq<TreeEntry>) -> Seq<(Seq<char>, Seq<u8>)>
    decreases s.len(),
{
    if s.len() == 0 {
        Seq::empty()
    } else {
        let rest = planned_entries(s.drop_last());
        let e = s.last();
        if e.path@.len() == 0 {
            rest
        } else if e.is_dir {
            rest.push((entry_name_spec(e.path@, true), Seq::empty()))
        } else {
            rest.push((entry_name_spec(e.path@, false), e.data@))
        }
    }
}

/// Serializes a walked tree into a single compressed package held in
/// memory: the returned bytes decode to exactly the planned entries, in
/// order. The host writes the bytes to disk unchanged.
pub fn archive_tree(entries: &Vec<TreeEntry>) -> (r: Result<Vec<u8>, CoreError>)
    ensures
        r matches Ok(b) ==> package_entries(b@) == Some(planned_entries(entries@)),
        r matches Err(e) ==> e.kind == ErrorKind::IoFailure,
{
    let mut w = zw_new();
    let mut i: usize = 0;
    while i < entries.len()
        invariant
            i <= entries@.len(),
            written_entries(w) == planned_entries(entries@.take(i as int)),
        decreases entries@.len() - i,
    {
        proof {
            assert(entries@.take(i + 1).drop_last() =~= entries@.take(i as int));
            assert(entries@.take(i + 1).last() == entries@[i as int]);
        }
        let e = &entries[i];
        if e.path.as_str().unicode_len() == 0 {
            // the walk's root: never an entry of its own
        } else if e.is_dir {
            let name = entry_name(e.path.as_str(), e.is_dir);
            proof {
                assert(name@.last() == '/');
                assert(dir_entry_recorded(name@) == name@);
            }
            match zw_add_directory(&mut w, name.as_str()) {
                Ok(()) => {},
                Err(msg) => {
                    return Err(CoreError { kind: ErrorKind::IoFailure, message: msg });
                },
            }
            proof {
                assert(written_entries(w) =~= planned_entries(entries@.take(i + 1)));
            }
        } else {
            let name = entry_name(e.path.as_str(), e.is_dir);
            match zw_start_file(&mut w, name.as_str()) {
                Ok(()) => {},
                Err(msg) => {
                    return Err(CoreError { kind: ErrorKind::IoFailure, message: msg });
                },
            }
            match zw_write_data(&mut w, &e.data) {
                Ok(()) => {},
                Err(msg) => {
                    return Err(CoreError { kind: ErrorKind::IoFailure, message: msg });
                },
            }
            proof {
                assert(written_entries(w) =~= planned_entries(entries@.take(i as int)).push(
                    (entry_name_spec(e.path@, false), e.data@),
                ));
                assert(written_entries(w) =~= planned_entries(entries@.take(i + 1)));
            }
        }
        i = i + 1;
    }
    proof {
        assert(entries@.take(entries@.len() as int) =~= entries@);
    }
    match zw_finish(w) {
        Ok(bytes) => Ok(bytes),
        Err(msg) => Err(CoreError { kind: ErrorKind::IoFailure, message: msg }),
    }
}

/// A path component the extractor accepts: nonempty, not a dot or
/// dot-dot, and free of separators, drive colons and NUL bytes — a name
/// that cannot make a written path escape the destination directory.
pub open spec fn component_ok(c: Seq<char>) -> bool {
    &&& c.len() > 0
    &&& c != seq!['.']
    &&& c != seq!['.', '.']
    &&& forall|i: int|
        0 <= i < c.len() ==> (#[trigger] c[i]) != '/' && c[i] != '\\' && c[i] != ':' && c[i]
            != '\u{0}'
}

/// The pieces of `s` between its forward slashes.
pub open spec fn split_slash(s: Seq<char>) -> Seq<Seq<char>>
    decreases s.len() via split_slash_decreases
{
    match find_from(s, seq!['/'], 0) {
        None => seq![s],
        Some(i) => seq![s.take(i)] + split_slash(s.skip(i + 1)),
    }
}

#[via_fn]
proof fn split_slash_decreases(s: Seq<char>) {
    if find_from(s, seq!['/'], 0) is Some {
        lemma_find_from_bounds(s, seq!['/'], 0);
    }
}

/// The components of an entry name that survive cleaning: empty pieces
/// and lone dots are dropped as path noise.
pub open spec fn cleaned_components(cs: Seq<Seq<char>>) -> Seq<Seq<char>>
    decreases cs.len(),
{
    if cs.len() == 0 {
        Seq::empty()
    } else {
        let rest = cleaned_components(cs.drop_last());
        if cs.last().len() == 0 || cs.last() == seq!['.'] {
            rest
        } else {
            rest.push(cs.last())
        }
    }
}

/// Cleaning drops nothing from components that are already acceptable.
proof fn lemma_cleaned_id(cs: Seq<Seq<char>>)
    requires
        forall|j: int| 0 <= j < cs.len() ==> (#[trigger] cs[j]).len() > 0 && cs[j] != seq!['.'],
    ensures
        cleaned_components(cs) == cs,
    decreases cs.len(),
{
    if cs.len() == 0 {
        assert(cleaned_components(cs) =~= cs);
    } else {
        assert(forall|j: int|
            0 <= j < cs.drop_last().len() ==> (#[trigger] cs.drop_last()[j]) == cs[j]);
        lemma_cleaned_id(cs.drop_last());
        assert(cleaned_components(cs) =~= cs);
    }
}

/// What slash-trimming returns never ends in a slash.
proof fn lemma_trim_slashes_last(s: Seq<char>)
    ensures
        trim_trailing_slashes(s).len() == 0 || trim_trailing_slashes(s).last() != '/',
    decreases s.len(),
{
    if s.len() > 0 && s.last() == '/' {
        lemma_trim_slashes_last(s.drop_last());
    }
}

/// The base path of a tree node as it travels through the package: the
/// node's path with separators unified, and — for a directory — trailing
/// slashes removed.
pub open spec fn node_base(path: Seq<char>, is_dir: bool) -> Seq<char> {
    if is_dir {
        trim_trailing_slashes(to_slash(path))
    } else {
        to_slash(path)
    }
}

/// Naming a tree node for the package and decoding that name back yields
/// the node's own components: a tree whose relative paths are made of
/// acceptable components survives the name codec unchanged, which is what
/// lets a round trip reproduce the tree's structure.
pub proof fn lemma_entry_name_round_trip(path: Seq<char>, is_dir: bool)
    requires
        forall|j: int|
            0 <= j < split_slash(node_base(path, is_dir)).len() ==> component_ok(
                #[trigger] split_slash(node_base(path, is_dir))[j],
            ),
    ensures
        decoded_components(entry_name_spec(path, is_dir), is_dir) == split_slash(
            node_base(path, is_dir),
        ),
        name_is_dir(entry_name_spec(path, is_dir)) == is_dir,
{
    lemma_split_nonempty(node_base(path, is_dir));
    if !is_dir {
        let base = node_base(path, is_dir);
        assert(forall|i: int| 0 <= i < base.len() ==> (#[trigger] base[i]) != '\\');
        if base.len() > 0 && base.last() == '/' {
            lemma_split_trailing_slash(base);
            assert(!component_ok(split_slash(base).last()));
            assert(false);
        }
        if base.len() == 0 {
            assert(find_from(base, seq!['/'], 0) is None) by {
                if find_from(base, seq!['/'], 0) is Some {
                    lemma_find_from_bounds(base, seq!['/'], 0);
                }
            }
            assert(split_slash(base) =~~= seq![base]);
            assert(!component_ok(split_slash(base)[0]));
            assert(false);
        }
        assert(!name_is_dir(entry_name_spec(path, false)));
    }
    let base = node_base(path, is_dir);
    if is_dir {
        let name = entry_name_spec(path, true);
        assert(name == base.push('/'));
        assert(base.len() > 0) by {
            if base.len() == 0 {
                assert(find_from(base, seq!['/'], 0) is None) by {
                    if find_from(base, seq!['/'], 0) is Some {
                        lemma_find_from_bounds(base, seq!['/'], 0);
                    }
                }
                assert(split_slash(base) =~~= seq![base]);
                assert(!component_ok(split_slash(base)[0]));
            }
        }
        lemma_trim_slashes_last(to_slash(path));
        assert(base.last() != '/');
        assert(trim_trailing_slashes(base) == base);
        assert(trim_trailing_slashes(name) == base) by {
            reveal_with_fuel(trim_trailing_slashes, 2);
            assert(name.last() == '/');
            assert(name.drop_last() =~= base);
        }
        lemma_cleaned_id(split_slash(base));
    } else {
        assert(entry_name_spec(path, false) == base);
        lemma_cleaned_id(split_slash(base));
    }
}

/// A nonempty, non-dot piece survives cleaning.
proof fn lemma_cleaned_contains(cs: Seq<Seq<char>>, i: int)
    requires
        0 <= i < cs.len(),
        cs[i].len() > 0,
        cs[i] != seq!['.'],
    ensures
        exists|j: int|
            0 <= j < cleaned_components(cs).len() && cleaned_components(cs)[j] == cs[i],
    decreases cs.len(),
{
    if i == cs.len() - 1 {
        let c = cleaned_components(cs);
        assert(c.last() == cs[i]);
        assert(0 <= c.len() - 1 < c.len() && c[c.len() - 1] == cs[i]);
    } else {
        assert(cs.drop_last()[i] == cs[i]);
        lemma_cleaned_contains(cs.drop_last(), i);
        let j = choose|j: int|
            0 <= j < cleaned_components(cs.drop_last()).len() && cleaned_components(
                cs.drop_last(),
            )[j] == cs[i];
        assert(0 <= j < cleaned_components(cs).len() && cleaned_components(cs)[j] == cs[i]);
    }
}

/// One entry read back from a package, with its path already sanitized
/// into separate components: the host joins them under the destination
/// directory and can never be led outside it.
#[derive(Debug)]
pub struct ExtractedEntry {
    pub components: Vec<String>,
    pub is_dir: bool,
    pub data: Vec<u8>,
}

/// What decoding an entry name yields: the name without a trailing
/// directory slash, split on `/`, cleaned of empty pieces and lone dots.
pub open spec fn decoded_components(name: Seq<char>, is_dir: bool) -> Seq<Seq<char>> {
    let base = if is_dir {
        trim_trailing_slashes(name)
    } else {
        name
    };
    cleaned_components(split_slash(base))
}

/// Splits the characters of `v` on `/`.
fn split_slash_chars(v: &Vec<char>) -> (r: Vec<Vec<char>>)
    ensures
        r.deep_view() == split_slash(v@),
{
    let mut out: Vec<Vec<char>> = Vec::new();
    let mut k: usize = 0;
    let mut slash: Vec<char> = Vec::new();
    slash.push('/');
    assert(slash@ =~= seq!['/']);
    proof {
        assert(v@.skip(0) =~= v@);
        assert(out.deep_view() + split_slash(v@) =~~= split_slash(v@));
    }
    loop
        invariant
            k <= v.len(),
            slash@ == seq!['/'],
            split_slash(v@) == out.deep_view() + split_slash(v@.skip(k as int)),
        decreases v.len() - k,
    {
        proof {
            assert(v@.skip(k as int).take(0) =~= Seq::<char>::empty());
        }
        match find_in_chars(v, &slash, k) {
            None => {
                let mut piece: Vec<char> = Vec::new();
                let vlen = v.len();
                extend_range(&mut piece, v, k, vlen);
                assert(piece@ =~= v@.skip(k as int));
                let ghost pre_deep = out.deep_view();
                out.push(piece);
                proof {
                    assert(out.deep_view() =~~= pre_deep.push(v@.skip(k as int)));
                    assert(find_from(v@.skip(k as int), seq!['/'], 0) is None) by {
                        if find_from(v@.skip(k as int), seq!['/'], 0) is Some {
                            lemma_find_from_bounds(v@.skip(k as int), seq!['/'], 0);
                            let i = find_from(v@.skip(k as int), seq!['/'], 0)->Some_0;
                            lemma_slash_at(v@.skip(k as int), i);
                            assert(v@[k + i] == '/');
                            lemma_slash_here(v@, k + i);
                            crate::strutil::lemma_find_from_none(v@, seq!['/'], k as int, k + i);
                            assert(false);
                        }
                    }
                    assert(split_slash(v@.skip(k as int)) =~~= seq![v@.skip(k as int)]);
                    assert(out.deep_view() =~~= split_slash(v@));
                }
                return out;
            },
            Some(i) => {
                proof {
                    lemma_find_from_bounds(v@, slash@, k as int);
                    assert(find_from(v@.skip(k as int), seq!['/'], 0) == Some(i - k)) by {
                        lemma_find_shift(v@, k as int, i as int);
                    }
                }
                let mut piece: Vec<char> = Vec::new();
                extend_range(&mut piece, v, k, i);
                assert(piece@ =~= v@.skip(k as int).take(i - k));
                let ghost pre_deep = out.deep_view();
                out.push(piece);
                proof {
                    reveal_with_fuel(split_slash, 2);
                    assert(out.deep_view() =~~= pre_deep.push(v@.skip(k as int).take(i - k)));
                    assert(v@.skip(k as int).skip(i - k + 1) =~= v@.skip(i + 1));
                    assert(split_slash(v@.skip(k as int)) == seq![v@.skip(k as int).take(i - k)]
                        + split_slash(v@.skip(k as int).skip(i - k + 1)));
                    assert(out.deep_view() + split_slash(v@.skip(i + 1)) =~~= split_slash(v@));
                }
                k = i + 1;
            },
        }
    }
}

/// The first slash at or after `k` in `s`, seen from the suffix that
/// starts at `k`, sits at the same place.
proof fn lemma_find_shift(s: Seq<char>, k: int, i: int)
    requires
        0 <= k <= s.len(),
        find_from(s, seq!['/'], k) == Some(i),
    ensures
        find_from(s.skip(k), seq!['/'], 0) == Some(i - k),
{
    lemma_find_from_bounds(s, seq!['/'], k);
    lemma_shift_step(s, k, i, k);
}

/// Walks the suffix search forward one position at a time.
proof fn lemma_shift_step(s: Seq<char>, k: int, i: int, j: int)
    requires
        0 <= k <= j <= i,
        i + 1 <= s.len(),
        find_from(s, seq!['/'], k) == Some(i),
        matches_at_slash(s, i),
    ensures
        find_from(s.skip(k), seq!['/'], j - k) == Some(i - k),
    decreases i - j,
{
    let t = s.skip(k);
    if j == i {
        lemma_slash_at(s, i);
        assert(t[i - k] == s[i]);
        lemma_slash_here(t, i - k);
    } else {
        assert(!crate::strutil::matches_at(s, seq!['/'], j)) by {
            crate::strutil::lemma_find_from_first(s, seq!['/'], k, j);
        }
        assert(!crate::strutil::matches_at(t, seq!['/'], j - k)) by {
            if crate::strutil::matches_at(t, seq!['/'], j - k) {
                lemma_slash_at(t, j - k);
                assert(s[j] == t[j - k]);
                lemma_slash_here(s, j);
            }
        }
        lemma_shift_step(s, k, i, j + 1);
    }
}

/// The search found a slash at `i`.
pub open spec fn matches_at_slash(s: Seq<char>, i: int) -> bool {
    crate::strutil::matches_at(s, seq!['/'], i)
}

/// A one-character pattern matches exactly where that character stands.
proof fn lemma_slash_at(s: Seq<char>, i: int)
    requires
        crate::strutil::matches_at(s, seq!['/'], i),
    ensures
        0 <= i < s.len(),
        s[i] == '/',
{
    assert(s.subrange(i, i + 1)[0] == s[i]);
    assert(s.subrange(i, i + 1) == seq!['/']);
    assert(seq!['/'][0] == '/');
}

proof fn lemma_slash_here(s: Seq<char>, i: int)
    requires
        0 <= i < s.len(),
        s[i] == '/',
    ensures
        crate::strutil::matches_at(s, seq!['/'], i),
{
    assert(s.subrange(i, i + 1) =~= seq!['/']);
}

fn is_single_dot(c: &Vec<char>) -> (r: bool)
    ensures
        r == (c@ == seq!['.']),
{
    if c.len() == 1 && c[0] == '.' {
        assert(c@ =~= seq!['.']);
        true
    } else {
        proof {
            if c@ == seq!['.'] {
                assert(c@.len() == 1);
            }
        }
        false
    }
}

fn is_double_dot(c: &Vec<char>) -> (r: bool)
    ensures
        r == (c@ == seq!['.', '.']),
{
    if c.len() == 2 && c[0] == '.' && c[1] == '.' {
        assert(c@ =~= seq!['.', '.']);
        true
    } else {
        proof {
            if c@ == seq!['.', '.'] {
                assert(c@.len() == 2);
            }
        }
        false
    }
}

fn component_ok_exec(c: &Vec<char>) -> (r: bool)
    ensures
        r == component_ok(c@),
{
    if c.len() == 0 {
        return false;
    }
    if is_single_dot(c) || is_double_dot(c) {
        return false;
    }
    let mut i: usize = 0;
    while i < c.len()
        invariant
            i <= c@.len(),
            forall|j: int|
                0 <= j < i ==> (#[trigger] c@[j]) != '/' && c@[j] != '\\' && c@[j] != ':' && c@[j]
                    != '\u{0}',
        decreases c@.len() - i,
    {
        let ch = c[i];
        if ch == '/' || ch == '\\' || ch == ':' || ch == '\u{0}' {
            return false;
        }
        i = i + 1;
    }
    true
}

/// Decodes one entry read from a package: the name is split into
/// components, path noise (empty pieces, lone dots) is dropped, and the
/// entry is rejected whenever a component could escape the destination —
/// a dot-dot, a backslash, a drive colon or a NUL. An entry whose name
/// cleans away entirely is rejected too.
#[verifier::loop_isolation(false)]
pub fn decode_entry(name: &str, is_dir: bool, data: Vec<u8>) -> (r: Option<ExtractedEntry>)
    ensures
        match r {
            Some(e) => {
                &&& decoded_components(name@, is_dir).len() > 0
                &&& (forall|j: int|
                    0 <= j < decoded_components(name@, is_dir).len() ==> component_ok(
                        #[trigger] decoded_components(name@, is_dir)[j],
                    ))
                &&& e.components.deep_view() == decoded_components(name@, is_dir)
                &&& e.is_dir == is_dir
                &&& e.data@ == data@
            },
            None => decoded_components(name@, is_dir).len() == 0 || exists|j: int|
                0 <= j < decoded_components(name@, is_dir).len() && !component_ok(
                    #[trigger] decoded_components(name@, is_dir)[j],
                ),
        },
{
    let v = str_to_chars(name);
    let base: Vec<char> = if is_dir {
        let mut b: usize = v.len();
        assert(v@.take(v@.len() as int) =~= v@);
        while b > 0 && v[b - 1] == '/'
            invariant
                b <= v.len(),
                trim_trailing_slashes(v@) == trim_trailing_slashes(v@.take(b as int)),
            decreases b,
        {
            proof {
                assert(v@.take(b as int).drop_last() =~= v@.take(b - 1));
                assert(v@.take(b as int).last() == v@[b - 1]);
            }
            b = b - 1;
        }
        proof {
            if b > 0 {
                assert(v@.take(b as int).last() == v@[b - 1]);
            }
            assert(trim_trailing_slashes(v@.take(b as int)) == v@.take(b as int));
        }
        let mut t: Vec<char> = Vec::new();
        extend_range(&mut t, &v, 0, b);
        assert(t@ =~= trim_trailing_slashes(v@));
        t
    } else {
        v
    };
    let pieces = split_slash_chars(&base);
    let ghost all = split_slash(base@);
    let mut components: Vec<String> = Vec::new();
    let mut i: usize = 0;
    proof {
        assert(all.take(0) =~= Seq::<Seq<char>>::empty());
        assert(components.deep_view() =~~= cleaned_components(all.take(0)));
    }
    while i < pieces.len()
        invariant
            i <= pieces@.len(),
            pieces.deep_view() == all,
            components.deep_view() == cleaned_components(all.take(i as int)),
            forall|j: int|
                0 <= j < cleaned_components(all.take(i as int)).len() ==> component_ok(
                    #[trigger] cleaned_components(all.take(i as int))[j],
                ),
        decreases pieces@.len() - i,
    {
        proof {
            assert(all.take(i + 1).drop_last() =~= all.take(i as int));
            assert(all.take(i + 1).last() == all[i as int]);
            assert(pieces@[i as int]@ == all[i as int]);
        }
        let piece = &pieces[i];
        if piece.len() == 0 || is_single_dot(piece) {
            // path noise: dropped
        } else if component_ok_exec(piece) {
            components.push(chars_to_string(piece));
            assert(components.deep_view() =~~= cleaned_components(all.take(i + 1)));
        } else {
            proof {
                assert(base@ == (if is_dir {
                    trim_trailing_slashes(name@)
                } else {
                    name@
                }));
                assert(decoded_components(name@, is_dir) == cleaned_components(all));
                assert(all[i as int].len() > 0 && all[i as int] != seq!['.']);
                lemma_cleaned_contains(all, i as int);
                let j = choose|j: int|
                    0 <= j < cleaned_components(all).len() && cleaned_components(all)[j]
                        == all[i as int];
                assert(0 <= j < decoded_components(name@, is_dir).len() && !component_ok(
                    decoded_components(name@, is_dir)[j],
                ));
            }
            return None;
        }
        i = i + 1;
    }
    proof {
        assert(all.take(all.len() as int) =~= all);
    }
    if components.len() == 0 {
        return None;
    }
    Some(ExtractedEntry { components, is_dir, data })
}

/// Reads a package back into sanitized entries: every component of every
/// returned path is safe to join under the destination directory. Entries
/// whose names clean away or would escape are dropped, as the catalog of
/// a hostile package must never direct the host outside the destination.
pub fn read_archive(bytes: Vec<u8>) -> (r: Result<Vec<ExtractedEntry>, CoreError>)
    ensures
        match r {
            Ok(entries) => {
                &&& package_entries(bytes@) is Some
                &&& entries_decode(package_entries(bytes@)->Some_0, entries@)
                &&& forall|j: int, c: int|
                    0 <= j < entries@.len() && 0 <= c < entries@[j].components@.len()
                        ==> component_ok(#[trigger] entries@[j].components@[c]@)
            },
            Err(e) => e.kind == ErrorKind::IoFailure,
        },
{
    let mut a = match za_open(bytes) {
        Ok(a) => a,
        Err(msg) => {
            return Err(CoreError { kind: ErrorKind::IoFailure, message: msg });
        },
    };
    let ghost table = stored_entries(a);
    let n = za_len(&a);
    let mut out: Vec<ExtractedEntry> = Vec::new();
    let mut i: usize = 0;
    proof {
        assert(table.take(0) =~= Seq::<(Seq<char>, Seq<u8>)>::empty());
    }
    while i < n
        invariant
            i <= n,
            n == stored_entries(a).len(),
            stored_entries(a) == table,
            entry_plan(table.take(i as int)) =~~= out_view(out@),
            forall|j: int, c: int|
                0 <= j < out@.len() && 0 <= c < out@[j].components@.len() ==> component_ok(
                    #[trigger] out@[j].components@[c]@,
                ),
        decreases n - i,
    {
        proof {
            assert(table.take(i + 1).drop_last() =~= table.take(i as int));
            assert(table.take(i + 1).last() == table[i as int]);
        }
        let (name, is_dir, data) = match za_entry(&mut a, i) {
            Ok(e) => e,
            Err(msg) => {
                return Err(CoreError { kind: ErrorKind::IoFailure, message: msg });
            },
        };
        let ghost dv = data@;
        match decode_entry(name.as_str(), is_dir, data) {
            Some(entry) => {
                let ghost snap = out@;
                out.push(entry);
                proof {
                    assert(out_view(out@) =~~= out_view(snap).push(
                        (
                            decoded_components(name@, is_dir),
                            is_dir,
                            dv,
                        ),
                    ));
                    assert(entry_plan(table.take(i + 1)) =~~= out_view(out@));
                    assert forall|j: int, c: int|
                        0 <= j < out@.len() && 0 <= c < out@[j].components@.len() implies component_ok(
                        #[trigger] out@[j].components@[c]@,
                    ) by {
                        if j < snap.len() {
                            assert(out@[j] == snap[j]);
                        } else {
                            assert(out@[j].components.deep_view() == decoded_components(
                                name@,
                                is_dir,
                            ));
                            assert(out@[j].components@[c]@ == decoded_components(name@, is_dir)[c]);
                        }
                    }
                }
            },
            None => {
                // a hostile or empty name: the entry is dropped
                proof {
                    assert(entry_plan(table.take(i + 1)) =~~= out_view(out@));
                }
            },
        }
        i = i + 1;
    }
    proof {
        assert(table.take(n as int) =~= table);
        assert(entries_decode(table, out@));
    }
    Ok(out)
}

/// The decoded image of a package's entry table: each entry split into
/// cleaned components under its name-derived directory flag, with entries
/// that clean away or would escape the destination dropped.
pub open spec fn entry_plan(table: Seq<(Seq<char>, Seq<u8>)>) -> Seq<(Seq<Seq<char>>, bool, Seq<u8>)>
    decreases table.len(),
{
    if table.len() == 0 {
        Seq::empty()
    } else {
        let rest = entry_plan(table.drop_last());
        let name = table.last().0;
        let dir = name_is_dir(name);
        let comps = decoded_components(name, dir);
        if comps.len() > 0 && (forall|j: int| 0 <= j < comps.len() ==> component_ok(#[trigger] comps[j])) {
            rest.push((comps, dir, table.last().1))
        } else {
            rest
        }
    }
}

/// The view of extracted entries compared against `entry_plan`.
pub open spec fn out_view(entries: Seq<ExtractedEntry>) -> Seq<(Seq<Seq<char>>, bool, Seq<u8>)> {
    entries.map(|_j: int, e: ExtractedEntry| (e.components.deep_view(), e.is_dir, e.data@))
}

/// The extracted entries are exactly the decoded image of the table.
pub open spec fn entries_decode(table: Seq<(Seq<char>, Seq<u8>)>, entries: Seq<ExtractedEntry>) -> bool {
    out_view(entries) == entry_plan(table)
}

/// Splitting never yields an empty list of pieces.
proof fn lemma_split_nonempty(s: Seq<char>)
    ensures
        split_slash(s).len() > 0,
{
    if find_from(s, seq!['/'], 0) is Some {
        lemma_find_from_bounds(s, seq!['/'], 0);
    }
}

/// A text that ends in a slash splits into pieces whose last is empty.
proof fn lemma_split_trailing_slash(s: Seq<char>)
    requires
        s.len() > 0,
        s.last() == '/',
    ensures
        split_slash(s).len() > 0,
        split_slash(s).last().len() == 0,
    decreases s.len(),
{
    lemma_split_nonempty(s);
    assert(crate::strutil::matches_at(s, seq!['/'], s.len() - 1)) by {
        assert(s.subrange(s.len() - 1, s.len() as int) =~= seq!['/']);
    }
    if find_from(s, seq!['/'], 0) is None {
        crate::strutil::lemma_find_from_none(s, seq!['/'], 0, s.len() - 1);
        assert(false);
    }
    lemma_find_from_bounds(s, seq!['/'], 0);
    let i = find_from(s, seq!['/'], 0)->Some_0;
    let rest = s.skip(i + 1);
    if i + 1 == s.len() {
        assert(rest.len() == 0);
        assert(find_from(rest, seq!['/'], 0) is None);
        assert(split_slash(rest) =~~= seq![rest]);
        assert(split_slash(s).last() == rest);
    } else {
        assert(rest.last() == s.last());
        lemma_split_trailing_slash(rest);
        lemma_split_nonempty(rest);
        assert(split_slash(s).last() == split_slash(rest).last());
    }
}

/// A tree node the package codec carries losslessly: the root, or a node
/// whose base path splits into acceptable components alone.
pub open spec fn node_ok(e: TreeEntry) -> bool {
    e.path@.len() == 0 || (forall|j: int|
        0 <= j < split_slash(node_base(e.path@, e.is_dir)).len() ==> component_ok(
            #[trigger] split_slash(node_base(e.path@, e.is_dir))[j],
        ))
}

/// The component-level image of a walked tree: each non-root node's base
/// path split on separators, its kind, and its bytes (empty for a
/// directory), in walk order.
pub open spec fn tree_image(s: Seq<TreeEntry>) -> Seq<(Seq<Seq<char>>, bool, Seq<u8>)>
    decreases s.len(),
{
    if s.len() == 0 {
        Seq::empty()
    } else {
        let rest = tree_image(s.drop_last());
        let e = s.last();
        if e.path@.len() == 0 {
            rest
        } else {
            rest.push(
                (
                    split_slash(node_base(e.path@, e.is_dir)),
                    e.is_dir,
                    if e.is_dir {
                        Seq::empty()
                    } else {
                        e.data@
                    },
                ),
            )
        }
    }
}

/// The package round trip preserves a clean tree: decoding the entry
/// table that `archive_tree` promises for these nodes yields exactly the
/// nodes' own components, kinds and bytes. Together with `archive_tree`'s
/// and `read_archive`'s contracts, writing a tree into a package and
/// reading the package back reproduces the tree's relative structure and
/// file contents.
pub proof fn lemma_package_round_trip(tree: Seq<TreeEntry>)
    requires
        forall|i: int| 0 <= i < tree.len() ==> node_ok(#[trigger] tree[i]),
    ensures
        entry_plan(planned_entries(tree)) == tree_image(tree),
    decreases tree.len(),
{
    if tree.len() == 0 {
        assert(entry_plan(planned_entries(tree)) =~~= tree_image(tree));
    } else {
        assert(forall|i: int|
            0 <= i < tree.drop_last().len() ==> (#[trigger] tree.drop_last()[i]) == tree[i]);
        lemma_package_round_trip(tree.drop_last());
        let e = tree.last();
        if e.path@.len() == 0 {
            assert(planned_entries(tree) == planned_entries(tree.drop_last()));
            assert(tree_image(tree) == tree_image(tree.drop_last()));
        } else {
            lemma_entry_name_round_trip(e.path@, e.is_dir);
            let name = entry_name_spec(e.path@, e.is_dir);
            let comps = split_slash(node_base(e.path@, e.is_dir));
            lemma_split_nonempty(node_base(e.path@, e.is_dir));
            let planned = planned_entries(tree);
            assert(planned == planned_entries(tree.drop_last()).push(
                (
                    name,
                    if e.is_dir {
                        Seq::<u8>::empty()
                    } else {
                        e.data@
                    },
                ),
            ));
            assert(planned.drop_last() =~= planned_entries(tree.drop_last()));
            assert(decoded_components(planned.last().0, name_is_dir(planned.last().0)) == comps);
            assert(entry_plan(planned) =~~= tree_image(tree));
        }
    }
}

} // verus!
