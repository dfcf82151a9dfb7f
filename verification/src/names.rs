//! Filename codec: sanitizing untrusted name fragments into safe file
//! names, encoding archive stems that embed a stamp, decoding the stamp
//! back out of a file name, and deriving sidecar annotation names.

use vstd::prelude::*;

use crate::stamp::{
    char_of_digit, is_digit_char, lemma_stamp_codec_round_trip, lemma_stamp_tag_chars, parse_tag,
    parse_stamp, stamp_tag, stamp_tag_chars, format_stamp, Stamp,
};
use crate::strutil::{
    chars_to_string, extend_range, find_in_chars, find_sub, lemma_find_from_bounds,
    lemma_find_from_exact, matches_at, str_to_chars,
};

verus! {

/// The reserved characters that may not appear in a safe file name.
pub open spec fn is_reserved_char(c: char) -> bool {
    c == '<' || c == '>' || c == ':' || c == '"' || c == '|' || c == '?' || c == '*' || c == '/'
        || c == '\\'
}

/// The Unicode white-space characters, the set `str::trim` removes.
pub open spec fn is_space_char(c: char) -> bool {
    c == '\t' || c == '\n' || c == '\u{b}' || c == '\u{c}' || c == '\r' || c == ' '
        || c == '\u{85}' || c == '\u{a0}' || c == '\u{1680}' || ('\u{2000}' <= c && c
        <= '\u{200a}') || c == '\u{2028}' || c == '\u{2029}' || c == '\u{202f}' || c == '\u{205f}'
        || c == '\u{3000}'
}

fn reserved_char(c: char) -> (r: bool)
    ensures
        r == is_reserved_char(c),
{
    c == '<' || c == '>' || c == ':' || c == '"' || c == '|' || c == '?' || c == '*' || c == '/'
        || c == '\\'
}

fn space_char(c: char) -> (r: bool)
    ensures
        r == is_space_char(c),
{
    c == '\t' || c == '\n' || c == '\u{b}' || c == '\u{c}' || c == '\r' || c == ' '
        || c == '\u{85}' || c == '\u{a0}' || c == '\u{1680}' || ('\u{2000}' <= c && c
        <= '\u{200a}') || c == '\u{2028}' || c == '\u{2029}' || c == '\u{202f}' || c == '\u{205f}'
        || c == '\u{3000}'
}

/// Every reserved character replaced by an underscore.
pub open spec fn replace_reserved(s: Seq<char>) -> Seq<char> {
    s.map(
        |_i: int, c: char|
            if is_reserved_char(c) {
                '_'
            } else {
                c
            },
    )
}

/// Leading white space removed.
pub open spec fn trim_start_spec(s: Seq<char>) -> Seq<char>
    decreases s.len(),
{
    if s.len() > 0 && is_space_char(s[0]) {
        trim_start_spec(s.drop_first())
    } else {
        s
    }
}

/// Trailing white space removed.
pub open spec fn trim_end_spec(s: Seq<char>) -> Seq<char>
    decreases s.len(),
{
    if s.len() > 0 && is_space_char(s.last()) {
        trim_end_spec(s.drop_last())
    } else {
        s
    }
}

/// Trailing dots removed.
pub open spec fn trim_dots_end_spec(s: Seq<char>) -> Seq<char>
    decreases s.len(),
{
    if s.len() > 0 && s.last() == '.' {
        trim_dots_end_spec(s.drop_last())
    } else {
        s
    }
}

/// The sanitized form of an untrusted name fragment: reserved characters
/// replaced by underscores, then leading and trailing white space and
/// trailing dots trimmed.
pub open spec fn sanitize_spec(s: Seq<char>) -> Seq<char> {
    trim_dots_end_spec(trim_end_spec(trim_start_spec(replace_reserved(s))))
}

proof fn lemma_trim_start_at(s: Seq<char>, a: int)
    requires
        0 <= a <= s.len(),
        forall|j: int| 0 <= j < a ==> is_space_char(s[j]),
        a == s.len() || !is_space_char(s[a]),
    ensures
        trim_start_spec(s) == s.skip(a),
    decreases a,
{
    if a == 0 {
        assert(s.skip(0) =~= s);
    } else {
        assert(is_space_char(s[0]));
        lemma_trim_start_at(s.drop_first(), a - 1);
        assert(s.drop_first().skip(a - 1) =~= s.skip(a));
    }
}

proof fn lemma_trim_end_at(s: Seq<char>, b: int)
    requires
        0 <= b <= s.len(),
        forall|j: int| b <= j < s.len() ==> is_space_char(s[j]),
        b == 0 || !is_space_char(s[b - 1]),
    ensures
        trim_end_spec(s) == s.take(b),
    decreases s.len(),
{
    if b == s.len() {
        if s.len() > 0 && is_space_char(s.last()) {
            assert(false);
        }
        assert(s.take(b) =~= s);
    } else {
        assert(is_space_char(s.last()));
        lemma_trim_end_at(s.drop_last(), b);
        assert(s.drop_last() =~= s.take(s.len() - 1));
        assert(s.drop_last().take(b) =~= s.take(b));
    }
}

proof fn lemma_trim_dots_end_at(s: Seq<char>, b: int)
    requires
        0 <= b <= s.len(),
        forall|j: int| b <= j < s.len() ==> s[j] == '.',
        b == 0 || s[b - 1] != '.',
    ensures
        trim_dots_end_spec(s) == s.take(b),
    decreases s.len(),
{
    if b == s.len() {
        assert(s.take(b) =~= s);
    } else {
        assert(s.last() == '.');
        lemma_trim_dots_end_at(s.drop_last(), b);
        assert(s.drop_last() =~= s.take(s.len() - 1));
        assert(s.drop_last().take(b) =~= s.take(b));
    }
}

/// Sanitized form of the characters in `v`.
pub fn sanitize_chars(v: &Vec<char>) -> (r: Vec<char>)
    ensures
        r@ == sanitize_spec(v@),
{
    let mut w: Vec<char> = Vec::new();
    let mut i: usize = 0;
    while i < v.len()
        invariant
            i <= v.len(),
            w@ == replace_reserved(v@.take(i as int)),
        decreases v.len() - i,
    {
        let c = v[i];
        if reserved_char(c) {
            w.push('_');
        } else {
            w.push(c);
        }
        i = i + 1;
        assert(w@ =~= replace_reserved(v@.take(i as int)));
    }
    assert(v@.take(v@.len() as int) =~= v@);
    let ghost rr = replace_reserved(v@);

    let mut a: usize = 0;
    while a < w.len() && space_char(w[a])
        invariant
            a <= w.len(),
            w@ == rr,
            forall|j: int| 0 <= j < a ==> is_space_char(rr[j]),
        decreases w.len() - a,
    {
        a = a + 1;
    }
    proof {
        lemma_trim_start_at(rr, a as int);
    }
    let ghost t1 = trim_start_spec(rr);

    let mut b: usize = w.len();
    while b > a && space_char(w[b - 1])
        invariant
            a <= b <= w.len(),
            w@ == rr,
            t1 == rr.skip(a as int),
            forall|j: int| b <= j < w.len() ==> is_space_char(rr[j]),
        decreases b,
    {
        b = b - 1;
    }
    proof {
        if b == a {
            lemma_trim_end_at(t1, 0);
        } else {
            lemma_trim_end_at(t1, b - a);
        }
        assert(t1.take(b - a) =~= rr.subrange(a as int, b as int));
    }
    let ghost t2 = trim_end_spec(t1);

    let mut c: usize = b;
    while c > a && w[c - 1] == '.'
        invariant
            a <= c <= b <= w.len(),
            w@ == rr,
            t2 == rr.subrange(a as int, b as int),
            forall|j: int| c <= j < b ==> rr[j] == '.',
        decreases c,
    {
        c = c - 1;
    }
    proof {
        if c == a {
            lemma_trim_dots_end_at(t2, 0);
        } else {
            lemma_trim_dots_end_at(t2, c - a);
        }
        assert(t2.take(c - a) =~= rr.subrange(a as int, c as int));
    }

    let mut out: Vec<char> = Vec::new();
    extend_range(&mut out, &w, a, c);
    assert(out@ =~= sanitize_spec(v@));
    out
}

/// Replaces every reserved character by an underscore, then trims leading
/// and trailing white space and trailing dots. Total and deterministic.
pub fn sanitize_filename(name: &str) -> (r: String)
    ensures
        r@ == sanitize_spec(name@),
{
    let v = str_to_chars(name);
    let out = sanitize_chars(&v);
    chars_to_string(&out)
}

/// A sanitized name holds no reserved character.
pub proof fn lemma_sanitize_no_reserved(s: Seq<char>)
    ensures
        forall|i: int|
            0 <= i < sanitize_spec(s).len() ==> !is_reserved_char(#[trigger] sanitize_spec(s)[i]),
{
    let rr = replace_reserved(s);
    assert(forall|i: int| 0 <= i < rr.len() ==> !is_reserved_char(#[trigger] rr[i]));
    lemma_trim_start_sub(rr);
    let t1 = trim_start_spec(rr);
    let k1 = choose|k: int|
        0 <= k <= rr.len() && trim_start_spec(rr) == rr.skip(k) && (forall|j: int|
            0 <= j < k ==> is_space_char(rr[j])) && (k == rr.len() || !is_space_char(rr[k]));
    assert(t1 == rr.skip(k1));
    lemma_trim_end_sub(t1);
    let t2 = trim_end_spec(t1);
    let k2 = choose|k: int| 0 <= k <= t1.len() && t2 == t1.take(k);
    assert(t2 == t1.take(k2));
    lemma_trim_dots_end_sub(t2);
    let r = trim_dots_end_spec(t2);
    let k3 = choose|k: int| 0 <= k <= t2.len() && r == t2.take(k);
    assert(r == t2.take(k3));
    assert forall|i: int| 0 <= i < r.len() implies !is_reserved_char(#[trigger] r[i]) by {
        assert(r[i] == rr[k1 + i]);
    }
}

/// Trimming from the front yields a suffix of the input.
proof fn lemma_trim_start_sub(s: Seq<char>)
    ensures
        exists|k: int|
            0 <= k <= s.len() && trim_start_spec(s) == s.skip(k) && (forall|j: int|
                0 <= j < k ==> is_space_char(s[j])) && (k == s.len() || !is_space_char(s[k])),
    decreases s.len(),
{
    if s.len() > 0 && is_space_char(s[0]) {
        lemma_trim_start_sub(s.drop_first());
        let k0 = choose|k0: int|
            0 <= k0 <= s.drop_first().len() && trim_start_spec(s.drop_first())
                == s.drop_first().skip(k0) && (forall|j: int|
                0 <= j < k0 ==> is_space_char(s.drop_first()[j])) && (k0 == s.drop_first().len()
                || !is_space_char(s.drop_first()[k0]));
        assert(s.drop_first().skip(k0) =~= s.skip(k0 + 1));
        assert forall|j: int| 0 <= j < k0 + 1 implies is_space_char(s[j]) by {
            if j > 0 {
                assert(is_space_char(s.drop_first()[j - 1]));
            }
        }
        assert(0 <= k0 + 1 <= s.len() && trim_start_spec(s) == s.skip(k0 + 1) && (forall|j: int|
            0 <= j < k0 + 1 ==> is_space_char(s[j])) && (k0 + 1 == s.len() || !is_space_char(
            s[k0 + 1],
        )));
    } else {
        assert(s.skip(0) =~= s);
        assert(0 <= 0 <= s.len() && trim_start_spec(s) == s.skip(0) && (forall|j: int|
            0 <= j < 0 ==> is_space_char(s[j])) && (0 == s.len() || !is_space_char(s[0])));
    }
}

/// Trimming from the back yields a prefix of the input.
proof fn lemma_trim_end_sub(s: Seq<char>)
    ensures
        exists|k: int| 0 <= k <= s.len() && trim_end_spec(s) == s.take(k),
    decreases s.len(),
{
    if s.len() > 0 && is_space_char(s.last()) {
        lemma_trim_end_sub(s.drop_last());
        let k0 = choose|k0: int|
            0 <= k0 <= s.drop_last().len() && trim_end_spec(s.drop_last()) == s.drop_last().take(
                k0,
            );
        assert(s.drop_last().take(k0) =~= s.take(k0));
        assert(0 <= k0 <= s.len() && trim_end_spec(s) == s.take(k0));
    } else {
        assert(s.take(s.len() as int) =~= s);
        assert(0 <= s.len() && trim_end_spec(s) == s.take(s.len() as int));
    }
}

/// Trimming dots from the back yields a prefix of the input.
proof fn lemma_trim_dots_end_sub(s: Seq<char>)
    ensures
        exists|k: int| 0 <= k <= s.len() && trim_dots_end_spec(s) == s.take(k),
    decreases s.len(),
{
    if s.len() > 0 && s.last() == '.' {
        lemma_trim_dots_end_sub(s.drop_last());
        let k0 = choose|k0: int|
            0 <= k0 <= s.drop_last().len() && trim_dots_end_spec(s.drop_last())
                == s.drop_last().take(k0);
        assert(s.drop_last().take(k0) =~= s.take(k0));
        assert(0 <= k0 <= s.len() && trim_dots_end_spec(s) == s.take(k0));
    } else {
        assert(s.take(s.len() as int) =~= s);
        assert(0 <= s.len() && trim_dots_end_spec(s) == s.take(s.len() as int));
    }
}

/// Sanitizing a second time changes nothing, provided the first pass did
/// not leave white space at the very end (trimming trailing dots can
/// uncover one, as in a name that ends in a space followed by a dot).
pub proof fn lemma_sanitize_idempotent(s: Seq<char>)
    requires
        sanitize_spec(s).len() == 0 || !is_space_char(sanitize_spec(s).last()),
    ensures
        sanitize_spec(sanitize_spec(s)) == sanitize_spec(s),
{
    let r = sanitize_spec(s);
    lemma_sanitize_no_reserved(s);
    assert(replace_reserved(r) =~= r);
    let rr = replace_reserved(s);
    lemma_trim_start_sub(rr);
    let t1 = trim_start_spec(rr);
    let k1 = choose|k: int|
        0 <= k <= rr.len() && trim_start_spec(rr) == rr.skip(k) && (forall|j: int|
            0 <= j < k ==> is_space_char(rr[j])) && (k == rr.len() || !is_space_char(rr[k]));
    assert(t1 == rr.skip(k1));
    lemma_trim_end_sub(t1);
    let t2 = trim_end_spec(t1);
    let k2 = choose|k: int| 0 <= k <= t1.len() && trim_end_spec(t1) == t1.take(k);
    assert(t2 == t1.take(k2));
    lemma_trim_dots_end_sub(t2);
    let k3 = choose|k: int| 0 <= k <= t2.len() && trim_dots_end_spec(t2) == t2.take(k);
    assert(r == t2.take(k3));
    // sanitizing removed every leading white-space character, so the result
    // starts with a non-space character if it is nonempty
    if r.len() > 0 {
        assert(r[0] == t2[0]);
        assert(t2[0] == t1[0]);
        assert(t1[0] == rr[k1]);
        assert(k1 < rr.len());
        assert(!is_space_char(r[0]));
    }
    lemma_trim_start_at(replace_reserved(r), 0);
    assert(replace_reserved(r).skip(0) =~= replace_reserved(r));
    assert(trim_start_spec(replace_reserved(r)) == r);
    lemma_trim_end_at(r, r.len() as int);
    assert(r.take(r.len() as int) =~= r);
    assert(trim_end_spec(r) == r);
    // the last trimming pass removed every trailing dot
    if r.len() > 0 {
        lemma_trim_dots_end_last(t2);
        assert(r.last() != '.');
    }
    lemma_trim_dots_end_at(r, r.len() as int);
    assert(trim_dots_end_spec(r) == r);
}

/// What dot-trimming returns never ends in a dot.
proof fn lemma_trim_dots_end_last(s: Seq<char>)
    ensures
        trim_dots_end_spec(s).len() == 0 || trim_dots_end_spec(s).last() != '.',
    decreases s.len(),
{
    if s.len() > 0 && s.last() == '.' {
        lemma_trim_dots_end_last(s.drop_last());
    }
}

/// The marker that separates the entity name from the stamp in a backup
/// archive name.
pub open spec fn backup_marker() -> Seq<char> {
    seq!['-', 'B', 'a', 'c', 'k', 'u', 'p', '-']
}

/// The marker used by protective snapshots, distinct from `backup_marker`
/// so the catalog's prefix filter never lists them.
pub open spec fn extra_backup_marker() -> Seq<char> {
    seq!['-', 'E', 'x', 't', 'r', 'a', 'B', 'a', 'c', 'k', 'u', 'p', '-']
}

/// The characters of `backup_marker`.
pub fn backup_marker_chars() -> (v: Vec<char>)
    ensures
        v@ == backup_marker(),
{
    let mut v: Vec<char> = Vec::new();
    v.push('-');
    v.push('B');
    v.push('a');
    v.push('c');
    v.push('k');
    v.push('u');
    v.push('p');
    v.push('-');
    assert(v@ =~= backup_marker());
    v
}

/// The characters of `extra_backup_marker`.
pub fn extra_backup_marker_chars() -> (v: Vec<char>)
    ensures
        v@ == extra_backup_marker(),
{
    let mut v: Vec<char> = Vec::new();
    v.push('-');
    v.push('E');
    v.push('x');
    v.push('t');
    v.push('r');
    v.push('a');
    v.push('B');
    v.push('a');
    v.push('c');
    v.push('k');
    v.push('u');
    v.push('p');
    v.push('-');
    assert(v@ =~= extra_backup_marker());
    v
}

/// The archive stem `{name}-Backup-{tag}`.
pub open spec fn backup_stem_spec(name: Seq<char>, st: Stamp) -> Seq<char> {
    name + backup_marker() + stamp_tag(st)
}

/// The snapshot stem `{name}-ExtraBackup-{tag}`.
pub open spec fn extra_backup_stem_spec(name: Seq<char>, st: Stamp) -> Seq<char> {
    name + extra_backup_marker() + stamp_tag(st)
}

/// Encodes the stem of a backup archive name for a sanitized entity name
/// and a stamp.
pub fn encode_backup_stem(safe_name: &str, st: &Stamp) -> (r: String)
    requires
        st.valid(),
    ensures
        r@ == backup_stem_spec(safe_name@, *st),
{
    let mut v = str_to_chars(safe_name);
    let marker = backup_marker_chars();
    extend_range(&mut v, &marker, 0, marker.len());
    let tag = format_stamp(st);
    extend_range(&mut v, &tag, 0, tag.len());
    assert(marker@.subrange(0, marker@.len() as int) =~= marker@);
    assert(tag@.subrange(0, tag@.len() as int) =~= tag@);
    assert(v@ =~= backup_stem_spec(safe_name@, *st));
    chars_to_string(&v)
}

/// Encodes the stem of a protective-snapshot archive name.
pub fn encode_extra_backup_stem(safe_name: &str, st: &Stamp) -> (r: String)
    requires
        st.valid(),
    ensures
        r@ == extra_backup_stem_spec(safe_name@, *st),
{
    let mut v = str_to_chars(safe_name);
    let marker = extra_backup_marker_chars();
    extend_range(&mut v, &marker, 0, marker.len());
    let tag = format_stamp(st);
    extend_range(&mut v, &tag, 0, tag.len());
    assert(marker@.subrange(0, marker@.len() as int) =~= marker@);
    assert(tag@.subrange(0, tag@.len() as int) =~= tag@);
    assert(v@ =~= extra_backup_stem_spec(safe_name@, *st));
    chars_to_string(&v)
}

/// The part of a file name in which the stamp is looked for: the text
/// between the first `-Backup-` marker and the next marker occurrence,
/// cut at the first dot that follows.
pub open spec fn stamp_segment(name: Seq<char>) -> Option<Seq<char>> {
    match find_sub(name, backup_marker()) {
        None => None,
        Some(i) => {
            let rest = name.skip(i + backup_marker().len());
            let part = match find_sub(rest, backup_marker()) {
                None => rest,
                Some(j) => rest.take(j),
            };
            let seg = match find_sub(part, seq!['.']) {
                None => part,
                Some(d) => part.take(d),
            };
            Some(seg)
        },
    }
}

/// The stamp embedded in a file name, if any.
pub open spec fn decode_stamp_spec(name: Seq<char>) -> Option<Stamp> {
    match stamp_segment(name) {
        None => None,
        Some(seg) => parse_tag(seg),
    }
}

/// Decodes the stamp embedded in an archive file name: the text after the
/// first `-Backup-` marker, up to the next marker or dot, parsed as
/// `YYYYMMDD-HHMMSS`.
pub fn parse_stamp_from_name(name: &str) -> (r: Option<Stamp>)
    ensures
        r == decode_stamp_spec(name@),
{
    let v = str_to_chars(name);
    let marker = backup_marker_chars();
    let i = match find_in_chars(&v, &marker, 0) {
        None => {
            return None;
        },
        Some(i) => i,
    };
    proof {
        lemma_find_from_bounds(v@, marker@, 0);
        assert(i + marker@.len() <= v@.len());
    }
    let vlen = v.len();
    let mut rest: Vec<char> = Vec::new();
    extend_range(&mut rest, &v, i + marker.len(), vlen);
    assert(rest@ =~= v@.skip(i + marker@.len()));
    let part_end = match find_in_chars(&rest, &marker, 0) {
        None => rest.len(),
        Some(j) => {
            proof {
                lemma_find_from_bounds(rest@, marker@, 0);
            }
            j
        },
    };
    let mut dotv: Vec<char> = Vec::new();
    dotv.push('.');
    assert(dotv@ =~= seq!['.']);
    let mut part: Vec<char> = Vec::new();
    extend_range(&mut part, &rest, 0, part_end);
    assert(part@ =~= if find_sub(rest@, backup_marker()) is Some {
        rest@.take(find_sub(rest@, backup_marker())->Some_0)
    } else {
        rest@
    });
    let seg_end = match find_in_chars(&part, &dotv, 0) {
        None => part.len(),
        Some(d) => {
            proof {
                lemma_find_from_bounds(part@, dotv@, 0);
            }
            d
        },
    };
    let mut seg: Vec<char> = Vec::new();
    extend_range(&mut seg, &part, 0, seg_end);
    assert(seg@ =~= if find_sub(part@, seq!['.']) is Some {
        part@.take(find_sub(part@, seq!['.'])->Some_0)
    } else {
        part@
    });
    parse_stamp(&seg)
}

/// The characters of the archive extension.
pub open spec fn zip_ext_chars() -> Seq<char> {
    seq!['.', 'z', 'i', 'p']
}

/// Decoding an encoded backup stem, once the archive extension is
/// appended, recovers the stamp exactly — provided the marker the encoder
/// wrote is the first occurrence of the marker in the stem. A name such
/// that the marker already occurs in `name + marker` earlier (one that
/// itself ends in most of a marker) defeats the decoder, and is the one
/// family of names left out here.
pub proof fn lemma_decode_encoded_stem(name: Seq<char>, st: Stamp)
    requires
        st.valid(),
        forall|i: int|
            0 <= i < name.len() ==> !matches_at(name + backup_marker(), backup_marker(), i),
    ensures
        decode_stamp_spec(backup_stem_spec(name, st) + zip_ext_chars()) == Some(st),
{
    let marker = backup_marker();
    let tag = stamp_tag(st);
    let s = backup_stem_spec(name, st) + zip_ext_chars();
    let nl = name.len() as int;
    lemma_stamp_tag_chars(st);
    assert(tag.len() == 15);

    // the marker the encoder wrote is the first occurrence in the whole name
    assert(matches_at(s, marker, nl)) by {
        assert(s.subrange(nl, nl + marker.len()) =~= marker);
    }
    assert forall|i: int| 0 <= i < nl implies !matches_at(s, marker, i) by {
        if matches_at(s, marker, i) {
            assert(s.subrange(i, i + marker.len()) == marker);
            assert((name + marker).subrange(i, i + marker.len()) =~= s.subrange(
                i,
                i + marker.len(),
            ));
            assert(matches_at(name + marker, marker, i));
        }
    }
    lemma_find_from_exact(s, marker, 0, nl);
    assert(find_sub(s, marker) == Some(nl));

    let rest = s.skip(nl + marker.len());
    let tail = stamp_tag_chars(st) + zip_ext_chars();
    assert(rest =~= tail);

    // nothing after the stamp can hold another marker: no character of
    // the tag or of the extension is a capital B
    assert forall|i: int| 0 <= i < tail.len() implies tail[i] != 'B' by {
        if i < 15 {
            assert(tail[i] == stamp_tag_chars(st)[i]);
        } else {
            assert(tail[i] == zip_ext_chars()[i - 15]);
        }
    }
    assert(find_sub(rest, marker) is None) by {
        if find_sub(rest, marker) is Some {
            lemma_find_from_bounds(rest, marker, 0);
            let i = find_sub(rest, marker)->Some_0;
            assert(rest.subrange(i, i + marker.len())[1] == rest[i + 1]);
            assert(rest[i + 1] == 'B');
            assert(tail[i + 1] != 'B');
            assert(false);
        }
    }

    // the first dot after the marker opens the extension
    assert(matches_at(rest, seq!['.'], 15)) by {
        assert(rest.subrange(15, 16) =~= seq!['.']);
    }
    assert forall|i: int| 0 <= i < 15 implies !matches_at(rest, seq!['.'], i) by {
        if matches_at(rest, seq!['.'], i) {
            assert(rest.subrange(i, i + 1)[0] == rest[i]);
            assert(rest[i] == '.');
            assert(stamp_tag_chars(st)[i] != '.');
        }
    }
    lemma_find_from_exact(rest, seq!['.'], 0, 15);
    assert(find_sub(rest, seq!['.']) == Some(15int));

    assert(rest.take(15) =~= stamp_tag(st));
    lemma_stamp_codec_round_trip(st);
    assert(stamp_segment(s) == Some(rest.take(15)));
    assert(decode_stamp_spec(s) == parse_tag(stamp_tag(st)));
}

/// Index of the last dot of `s` that does not stand at the very front:
/// the extension separator `Path::with_extension` and `Path::extension`
/// go by.
pub open spec fn find_last_dot(s: Seq<char>) -> Option<int>
    decreases s.len(),
{
    if s.len() <= 1 {
        None
    } else if s.last() == '.' {
        Some(s.len() - 1)
    } else {
        find_last_dot(s.drop_last())
    }
}

/// The name of the sidecar annotation file that belongs to an archive
/// file name: the same stem with a `.txt` extension.
pub open spec fn sidecar_name_spec(s: Seq<char>) -> Seq<char> {
    let stem = match find_last_dot(s) {
        None => s,
        Some(i) => s.take(i),
    };
    stem + seq!['.', 't', 'x', 't']
}

/// Index of the last dot not at the very front of `v`, if any.
pub fn last_dot_index(v: &Vec<char>) -> (r: Option<usize>)
    ensures
        match r {
            Some(i) => Some(i as int) == find_last_dot(v@),
            None => find_last_dot(v@) is None,
        },
{
    let mut b: usize = v.len();
    assert(v@.take(v@.len() as int) =~= v@);
    while b > 1 && v[b - 1] != '.'
        invariant
            b <= v.len(),
            find_last_dot(v@) == find_last_dot(v@.take(b as int)),
        decreases b,
    {
        proof {
            assert(v@.take(b as int).drop_last() =~= v@.take(b - 1));
        }
        b = b - 1;
    }
    if b <= 1 {
        assert(v@.take(b as int).len() <= 1);
        None
    } else {
        assert(v@.take(b as int).last() == v@[b - 1]);
        Some(b - 1)
    }
}

/// Derives the sidecar annotation name of an archive file name: the stem
/// before the extension separator, with `.txt` appended.
pub fn sidecar_name(file_name: &str) -> (r: String)
    ensures
        r@ == sidecar_name_spec(file_name@),
{
    let v = str_to_chars(file_name);
    let cut = match last_dot_index(&v) {
        None => v.len(),
        Some(i) => i,
    };
    proof {
        if find_last_dot(v@) is Some {
            lemma_last_dot_bounds(v@);
        }
    }
    let mut out: Vec<char> = Vec::new();
    extend_range(&mut out, &v, 0, cut);
    out.push('.');
    out.push('t');
    out.push('x');
    out.push('t');
    assert(out@ =~= sidecar_name_spec(file_name@));
    chars_to_string(&out)
}

pub proof fn lemma_last_dot_bounds(s: Seq<char>)
    requires
        find_last_dot(s) is Some,
    ensures
        0 < find_last_dot(s)->Some_0 < s.len(),
        s[find_last_dot(s)->Some_0] == '.',
    decreases s.len(),
{
    if s.len() <= 1 {
    } else if s.last() == '.' {
    } else {
        lemma_last_dot_bounds(s.drop_last());
    }
}

} // verus!
