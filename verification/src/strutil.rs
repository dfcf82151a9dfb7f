//! Character-sequence utilities shared by the filename codec, the path
//! helpers and the catalog: conversion between `String` and `Vec<char>`,
//! substring search, and left-to-right replacement.

use vstd::prelude::*;

verus! {

/// Relies on `String::push`: appends one character to the string.
#[verifier::external_body]
pub fn push_char(s: &mut String, c: char)
    ensures
        final(s)@ == old(s)@.push(c),
{
    s.push(c);
}

/// Collects the characters of a string slice into a vector.
pub fn str_to_chars(s: &str) -> (v: Vec<char>)
    ensures
        v@ == s@,
{
    let n: usize = s.unicode_len();
    let mut v: Vec<char> = Vec::new();
    let mut i: usize = 0;
    while i < n
        invariant
            i <= n,
            n == s@.len(),
            v@ == s@.take(i as int),
        decreases n - i,
    {
        v.push(s.get_char(i));
        i = i + 1;
        assert(v@ =~= s@.take(i as int));
    }
    assert(v@ =~= s@);
    v
}

/// Builds a string from a vector of characters.
pub fn chars_to_string(v: &Vec<char>) -> (s: String)
    ensures
        s@ == v@,
{
    let mut s = String::new();
    let mut i: usize = 0;
    while i < v.len()
        invariant
            i <= v.len(),
            s@ == v@.take(i as int),
        decreases v.len() - i,
    {
        push_char(&mut s, v[i]);
        i = i + 1;
        assert(s@ =~= v@.take(i as int));
    }
    assert(s@ =~= v@);
    s
}

/// An owned copy of a string slice.
pub fn own_string(s: &str) -> (r: String)
    ensures
        r@ == s@,
{
    String::from_str(s)
}

/// The pattern `m` occurs in `s` at position `i`.
pub open spec fn matches_at(s: Seq<char>, m: Seq<char>, i: int) -> bool {
    0 <= i && i + m.len() <= s.len() && s.subrange(i, i + m.len()) == m
}

/// Position of the first occurrence of `m` in `s` at or after position `k`.
pub open spec fn find_from(s: Seq<char>, m: Seq<char>, k: int) -> Option<int>
    decreases s.len() - k + 1,
{
    if k < 0 || k + m.len() > s.len() {
        None
    } else if matches_at(s, m, k) {
        Some(k)
    } else {
        find_from(s, m, k + 1)
    }
}

/// Position of the first occurrence of `m` in `s`.
pub open spec fn find_sub(s: Seq<char>, m: Seq<char>) -> Option<int> {
    find_from(s, m, 0)
}

/// `m` occurs somewhere in `s`.
pub open spec fn contains_sub(s: Seq<char>, m: Seq<char>) -> bool {
    find_sub(s, m) is Some
}

pub proof fn lemma_find_from_bounds(s: Seq<char>, m: Seq<char>, k: int)
    requires
        find_from(s, m, k) is Some,
    ensures
        k <= find_from(s, m, k)->Some_0,
        matches_at(s, m, find_from(s, m, k)->Some_0),
    decreases s.len() - k + 1,
{
    if k < 0 || k + m.len() > s.len() {
    } else if matches_at(s, m, k) {
    } else {
        lemma_find_from_bounds(s, m, k + 1);
    }
}

pub proof fn lemma_find_from_none(s: Seq<char>, m: Seq<char>, k: int, i: int)
    requires
        find_from(s, m, k) is None,
        0 <= k <= i,
    ensures
        !matches_at(s, m, i),
    decreases i - k,
{
    if k + m.len() > s.len() {
    } else if i > k {
        lemma_find_from_none(s, m, k + 1, i);
    }
}

/// No occurrence of `m` starts in `s` before the one `find_from` returns.
pub proof fn lemma_find_from_first(s: Seq<char>, m: Seq<char>, k: int, i: int)
    requires
        find_from(s, m, k) is Some,
        k <= i < find_from(s, m, k)->Some_0,
    ensures
        !matches_at(s, m, i),
    decreases i - k,
{
    if i == k {
        assert(!matches_at(s, m, k));
    } else {
        lemma_find_from_first(s, m, k + 1, i);
    }
}

/// Where the pattern matches and nothing matches earlier, that is what
/// the search finds.
pub proof fn lemma_find_from_exact(s: Seq<char>, m: Seq<char>, k: int, p: int)
    requires
        0 <= k <= p,
        matches_at(s, m, p),
        forall|i: int| k <= i < p ==> !matches_at(s, m, i),
    ensures
        find_from(s, m, k) == Some(p),
    decreases p - k,
{
    if k == p {
    } else {
        lemma_find_from_exact(s, m, k + 1, p);
    }
}

/// Compares `s[i .. i + m.len()]` with `m`.
fn window_eq(s: &Vec<char>, m: &Vec<char>, i: usize) -> (r: bool)
    requires
        i + m.len() <= s.len(),
    ensures
        r == matches_at(s@, m@, i as int),
{
    let mut j: usize = 0;
    while j < m.len()
        invariant
            j <= m.len(),
            i + m.len() <= s.len(),
            forall|t: int| 0 <= t < j ==> s@[i + t] == m@[t],
        decreases m.len() - j,
    {
        if s[i + j] != m[j] {
            assert(s@.subrange(i as int, i + m@.len())[j as int] != m@[j as int]);
            return false;
        }
        j = j + 1;
    }
    assert(s@.subrange(i as int, i + m@.len()) =~= m@);
    true
}

/// Position of the first occurrence of `m` in `s` at or after `k`.
pub fn find_in_chars(s: &Vec<char>, m: &Vec<char>, k: usize) -> (r: Option<usize>)
    ensures
        match r {
            Some(i) => Some(i as int) == find_from(s@, m@, k as int),
            None => find_from(s@, m@, k as int) is None,
        },
{
    if k > s.len() || m.len() > s.len() - k {
        return None;
    }
    if m.len() == 0 {
        assert(s@.subrange(k as int, k as int) =~= m@);
        return Some(k);
    }
    let mut i: usize = k;
    while i <= s.len() - m.len()
        invariant
            k <= i,
            i <= s.len() - m.len() + 1,
            0 < m.len() <= s.len(),
            find_from(s@, m@, k as int) == find_from(s@, m@, i as int),
        decreases s.len() - i,
    {
        if window_eq(s, m, i) {
            return Some(i);
        }
        i = i + 1;
    }
    None
}

/// `p` is a prefix of `s`.
pub open spec fn has_prefix_spec(s: Seq<char>, p: Seq<char>) -> bool {
    s.len() >= p.len() && s.take(p.len() as int) == p
}

/// `p` is a suffix of `s`.
pub open spec fn has_suffix_spec(s: Seq<char>, p: Seq<char>) -> bool {
    s.len() >= p.len() && s.skip(s.len() - p.len()) == p
}

/// Whether `p` is a prefix of `v`.
pub fn starts_with_chars(v: &Vec<char>, p: &Vec<char>) -> (r: bool)
    ensures
        r == has_prefix_spec(v@, p@),
{
    if p.len() > v.len() {
        return false;
    }
    let r = window_eq(v, p, 0);
    proof {
        assert(v@.subrange(0, p@.len() as int) =~= v@.take(p@.len() as int));
    }
    r
}

/// Whether `p` is a suffix of `v`.
pub fn ends_with_chars(v: &Vec<char>, p: &Vec<char>) -> (r: bool)
    ensures
        r == has_suffix_spec(v@, p@),
{
    if p.len() > v.len() {
        return false;
    }
    let start = v.len() - p.len();
    let r = window_eq(v, p, start);
    proof {
        assert(v@.subrange(start as int, start + p@.len()) =~= v@.skip(v@.len() - p@.len()));
    }
    r
}

/// Left-to-right, non-overlapping replacement of `pat` by `rep` in the part
/// of `s` that starts at position `k`.
pub open spec fn replace_from(s: Seq<char>, pat: Seq<char>, rep: Seq<char>, k: int) -> Seq<char>
    decreases s.len() - k when 0 <= k && pat.len() > 0 via replace_from_decreases
{
    match find_from(s, pat, k) {
        None => s.skip(k),
        Some(i) => s.subrange(k, i) + rep + replace_from(s, pat, rep, i + pat.len()),
    }
}

#[via_fn]
proof fn replace_from_decreases(s: Seq<char>, pat: Seq<char>, rep: Seq<char>, k: int) {
    if find_from(s, pat, k) is Some {
        lemma_find_from_bounds(s, pat, k);
    }
}

/// Every occurrence of `pat` in `s` replaced by `rep`, left to right,
/// as `str::replace` does it.
pub open spec fn replace_all(s: Seq<char>, pat: Seq<char>, rep: Seq<char>) -> Seq<char> {
    replace_from(s, pat, rep, 0)
}

/// Appends `src[from .. to]` to `out`.
pub fn extend_range(out: &mut Vec<char>, src: &Vec<char>, from: usize, to: usize)
    requires
        from <= to <= src.len(),
    ensures
        final(out)@ == old(out)@ + src@.subrange(from as int, to as int),
{
    let mut j: usize = from;
    while j < to
        invariant
            from <= j <= to <= src.len(),
            out@ == old(out)@ + src@.subrange(from as int, j as int),
        decreases to - j,
    {
        out.push(src[j]);
        j = j + 1;
        assert(out@ =~= old(out)@ + src@.subrange(from as int, j as int));
    }
}

/// Every occurrence of `pat` in `s` replaced by `rep`.
pub fn replace_chars(s: &Vec<char>, pat: &Vec<char>, rep: &Vec<char>) -> (r: Vec<char>)
    requires
        pat.len() > 0,
    ensures
        r@ == replace_all(s@, pat@, rep@),
{
    let mut out: Vec<char> = Vec::new();
    let mut k: usize = 0;
    assert(out@ + replace_from(s@, pat@, rep@, 0) =~= replace_from(s@, pat@, rep@, 0));
    loop
        invariant
            k <= s.len(),
            pat.len() > 0,
            replace_all(s@, pat@, rep@) == out@ + replace_from(s@, pat@, rep@, k as int),
        decreases s.len() - k,
    {
        match find_in_chars(s, pat, k) {
            None => {
                let ghost pre = out@;
                extend_range(&mut out, s, k, s.len());
                assert(s@.subrange(k as int, s@.len() as int) =~= s@.skip(k as int));
                assert(out@ == pre + s@.skip(k as int));
                return out;
            },
            Some(i) => {
                proof {
                    lemma_find_from_bounds(s@, pat@, k as int);
                }
                let ghost pre = out@;
                let ghost kk = k as int;
                extend_range(&mut out, s, k, i);
                assert(out@ =~= pre + s@.subrange(kk, i as int) + rep@.take(0));
                let mut j: usize = 0;
                while j < rep.len()
                    invariant
                        j <= rep.len(),
                        out@ == pre + s@.subrange(kk, i as int) + rep@.take(j as int),
                        i + pat@.len() <= s@.len(),
                    decreases rep.len() - j,
                {
                    out.push(rep[j]);
                    j = j + 1;
                    assert(out@ =~= pre + s@.subrange(kk, i as int) + rep@.take(j as int));
                }
                proof {
                    assert(rep@.take(rep@.len() as int) =~= rep@);
                    assert(replace_from(s@, pat@, rep@, kk) == s@.subrange(kk, i as int) + rep@
                        + replace_from(s@, pat@, rep@, i + pat@.len()));
                    assert(out@ + replace_from(s@, pat@, rep@, i + pat@.len()) =~= pre
                        + replace_from(s@, pat@, rep@, kk));
                }
                k = i + pat.len();
            },
        }
    }
}

} // verus!
