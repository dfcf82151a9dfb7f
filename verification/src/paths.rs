//! Path text handling under the engine's Windows-style convention:
//! separator normalization, template-placeholder resolution, and the
//! helpers that derive well-known locations from values the host reads
//! from its environment.

use vstd::prelude::*;

use crate::{CoreError, ErrorKind};
use crate::config::error_text;
use crate::strutil::{
    chars_to_string, contains_sub, find_in_chars, replace_all, replace_chars, str_to_chars,
};

verus! {

/// Every forward slash turned into a backslash.
pub open spec fn to_backslash(s: Seq<char>) -> Seq<char> {
    s.map(
        |_i: int, c: char|
            if c == '/' {
                '\\'
            } else {
                c
            },
    )
}

/// Runs of consecutive backslashes collapsed to a single one.
pub open spec fn collapse_backslashes(s: Seq<char>) -> Seq<char>
    decreases s.len(),
{
    if s.len() == 0 {
        s
    } else if s.len() >= 2 && s[0] == '\\' && s[1] == '\\' {
        collapse_backslashes(s.drop_first())
    } else {
        seq![s[0]] + collapse_backslashes(s.drop_first())
    }
}

/// The normalized form of a path: forward slashes turned into
/// backslashes, then runs of backslashes collapsed.
pub open spec fn normalize_spec(s: Seq<char>) -> Seq<char> {
    collapse_backslashes(to_backslash(s))
}

fn normalize_chars(v: &Vec<char>) -> (r: Vec<char>)
    ensures
        r@ == normalize_spec(v@),
{
    let mut w: Vec<char> = Vec::new();
    let mut i: usize = 0;
    while i < v.len()
        invariant
            i <= v.len(),
            w@ == to_backslash(v@.take(i as int)),
        decreases v.len() - i,
    {
        let c = v[i];
        if c == '/' {
            w.push('\\');
        } else {
            w.push(c);
        }
        i = i + 1;
        assert(w@ =~= to_backslash(v@.take(i as int)));
    }
    assert(v@.take(v@.len() as int) =~= v@);
    let ghost m = to_backslash(v@);

    let mut out: Vec<char> = Vec::new();
    let mut k: usize = 0;
    proof {
        assert(m.skip(0) =~= m);
        assert(out@ + collapse_backslashes(m) =~= collapse_backslashes(m));
    }
    while k < w.len()
        invariant
            k <= w.len(),
            w@ == m,
            out@ + collapse_backslashes(m.skip(k as int)) == collapse_backslashes(m),
        decreases w.len() - k,
    {
        proof {
            assert(m.skip(k as int).drop_first() =~= m.skip(k + 1));
            assert(m.skip(k as int)[0] == m[k as int]);
            if k + 1 < m.len() {
                assert(m.skip(k as int)[1] == m[k + 1]);
            }
        }
        let c = w[k];
        if c == '\\' && k + 1 < w.len() && w[k + 1] == '\\' {
            // part of a run: the last backslash of the run is the one kept
        } else {
            out.push(c);
            assert(out@ + collapse_backslashes(m.skip(k + 1)) =~= collapse_backslashes(m));
        }
        k = k + 1;
    }
    proof {
        assert(m.skip(m.len() as int).len() == 0);
        assert(out@ =~= collapse_backslashes(m));
    }
    out
}

/// Unifies path separators: every `/` becomes `\` and runs of `\` are
/// collapsed to a single one.
pub fn normalize_path_separators(s: &str) -> (r: String)
    ensures
        r@ == normalize_spec(s@),
{
    let v = str_to_chars(s);
    let out = normalize_chars(&v);
    chars_to_string(&out)
}

pub open spec fn steam_placeholder() -> Seq<char> {
    seq!['{', 'S', 't', 'e', 'a', 'm', '}']
}

pub open spec fn steam_uid_placeholder() -> Seq<char> {
    seq!['{', 'S', 't', 'e', 'a', 'm', 'U', 'I', 'D', '}']
}

pub open spec fn appdata_placeholder() -> Seq<char> {
    seq!['{', 'A', 'p', 'p', 'D', 'a', 't', 'a', '}']
}

pub open spec fn user_placeholder() -> Seq<char> {
    seq!['{', 'U', 's', 'e', 'r', '}']
}

pub open spec fn home_placeholder() -> Seq<char> {
    seq!['{', 'H', 'o', 'm', 'e', '}']
}

fn steam_placeholder_chars() -> (v: Vec<char>)
    ensures
        v@ == steam_placeholder(),
{
    let mut v: Vec<char> = Vec::new();
    v.push('{');
    v.push('S');
    v.push('t');
    v.push('e');
    v.push('a');
    v.push('m');
    v.push('}');
    assert(v@ =~= steam_placeholder());
    v
}

fn steam_uid_placeholder_chars() -> (v: Vec<char>)
    ensures
        v@ == steam_uid_placeholder(),
{
    let mut v: Vec<char> = Vec::new();
    v.push('{');
    v.push('S');
    v.push('t');
    v.push('e');
    v.push('a');
    v.push('m');
    v.push('U');
    v.push('I');
    v.push('D');
    v.push('}');
    assert(v@ =~= steam_uid_placeholder());
    v
}

fn appdata_placeholder_chars() -> (v: Vec<char>)
    ensures
        v@ == appdata_placeholder(),
{
    let mut v: Vec<char> = Vec::new();
    v.push('{');
    v.push('A');
    v.push('p');
    v.push('p');
    v.push('D');
    v.push('a');
    v.push('t');
    v.push('a');
    v.push('}');
    assert(v@ =~= appdata_placeholder());
    v
}

fn user_placeholder_chars() -> (v: Vec<char>)
    ensures
        v@ == user_placeholder(),
{
    let mut v: Vec<char> = Vec::new();
    v.push('{');
    v.push('U');
    v.push('s');
    v.push('e');
    v.push('r');
    v.push('}');
    assert(v@ =~= user_placeholder());
    v
}

fn home_placeholder_chars() -> (v: Vec<char>)
    ensures
        v@ == home_placeholder(),
{
    let mut v: Vec<char> = Vec::new();
    v.push('{');
    v.push('H');
    v.push('o');
    v.push('m');
    v.push('e');
    v.push('}');
    assert(v@ =~= home_placeholder());
    v
}

/// One substitution pass: if the placeholder occurs, every occurrence is
/// replaced by the value.
pub open spec fn subst(s: Seq<char>, pat: Seq<char>, value: Option<Seq<char>>) -> Seq<char> {
    if contains_sub(s, pat) {
        replace_all(s, pat, value->Some_0)
    } else {
        s
    }
}

/// The fully substituted template, before separator normalization. Only
/// meaningful when every placeholder the template uses has a value.
pub open spec fn resolve_steps(
    t: Seq<char>,
    steam: Option<Seq<char>>,
    uid: Option<Seq<char>>,
    appdata: Option<Seq<char>>,
    home: Option<Seq<char>>,
) -> Seq<char> {
    let s1 = subst(t, steam_placeholder(), steam);
    let s2 = subst(s1, steam_uid_placeholder(), uid);
    let s3 = subst(s2, appdata_placeholder(), appdata);
    let s4 = if contains_sub(s3, user_placeholder()) || contains_sub(s3, home_placeholder()) {
        replace_all(replace_all(s3, user_placeholder(), home->Some_0), home_placeholder(), home->Some_0)
    } else {
        s3
    };
    s4
}

/// Option views of optional strings.
pub open spec fn opt_view(s: Option<&str>) -> Option<Seq<char>> {
    match s {
        Some(x) => Some(x@),
        None => None,
    }
}

/// Replaces the placeholders of a path template by the concrete values
/// the host resolved, in a fixed order: the platform install directory,
/// the numeric user identifier, the application-data root, and the user
/// home. Fails when the template uses a placeholder whose value is
/// unavailable, and normalizes separators at the end.
pub fn resolve_template_path(
    template: &str,
    steam_dir: Option<&str>,
    steam_uid: Option<&str>,
    appdata: Option<&str>,
    home: Option<&str>,
) -> (r: Result<String, CoreError>)
    ensures
        ({
            let t = template@;
            let s1 = subst(t, steam_placeholder(), opt_view(steam_dir));
            let s2 = subst(s1, steam_uid_placeholder(), opt_view(steam_uid));
            let s3 = subst(s2, appdata_placeholder(), opt_view(appdata));
            match r {
                Ok(p) => {
                    &&& (contains_sub(t, steam_placeholder()) ==> steam_dir is Some)
                    &&& (contains_sub(s1, steam_uid_placeholder()) ==> steam_uid is Some)
                    &&& (contains_sub(s2, appdata_placeholder()) ==> appdata is Some)
                    &&& ((contains_sub(s3, user_placeholder()) || contains_sub(
                        s3,
                        home_placeholder(),
                    )) ==> home is Some)
                    &&& p@ == normalize_spec(
                        resolve_steps(
                            t,
                            opt_view(steam_dir),
                            opt_view(steam_uid),
                            opt_view(appdata),
                            opt_view(home),
                        ),
                    )
                },
                Err(e) => {
                    &&& e.kind == ErrorKind::InvalidInput
                    &&& (contains_sub(t, steam_placeholder()) && steam_dir is None)
                        || (contains_sub(s1, steam_uid_placeholder()) && steam_uid is None) || (
                    contains_sub(s2, appdata_placeholder()) && appdata is None) || ((contains_sub(
                        s3,
                        user_placeholder(),
                    ) || contains_sub(s3, home_placeholder())) && home is None)
                },
            }
        }),
{
    let t = str_to_chars(template);

    let pat_steam = steam_placeholder_chars();
    let s1: Vec<char> = if find_in_chars(&t, &pat_steam, 0).is_some() {
        match steam_dir {
            None => {
                return Err(
                    CoreError {
                        kind: ErrorKind::InvalidInput,
                        message: error_text("the template needs the platform install directory, which is unavailable"),
                    },
                );
            },
            Some(d) => {
                let val = str_to_chars(d);
                replace_chars(&t, &pat_steam, &val)
            },
        }
    } else {
        t
    };

    let pat_uid = steam_uid_placeholder_chars();
    let s2: Vec<char> = if find_in_chars(&s1, &pat_uid, 0).is_some() {
        match steam_uid {
            None => {
                return Err(
                    CoreError {
                        kind: ErrorKind::InvalidInput,
                        message: error_text("the template needs a numeric user identifier, but none was given"),
                    },
                );
            },
            Some(u) => {
                let val = str_to_chars(u);
                replace_chars(&s1, &pat_uid, &val)
            },
        }
    } else {
        s1
    };

    let pat_appdata = appdata_placeholder_chars();
    let s3: Vec<char> = if find_in_chars(&s2, &pat_appdata, 0).is_some() {
        match appdata {
            None => {
                return Err(
                    CoreError {
                        kind: ErrorKind::InvalidInput,
                        message: error_text("the template needs the application-data root, which is unavailable"),
                    },
                );
            },
            Some(a) => {
                let val = str_to_chars(a);
                replace_chars(&s2, &pat_appdata, &val)
            },
        }
    } else {
        s2
    };

    let pat_user = user_placeholder_chars();
    let pat_home = home_placeholder_chars();
    let needs_home = find_in_chars(&s3, &pat_user, 0).is_some() || find_in_chars(
        &s3,
        &pat_home,
        0,
    ).is_some();
    let s4: Vec<char> = if needs_home {
        match home {
            None => {
                return Err(
                    CoreError {
                        kind: ErrorKind::InvalidInput,
                        message: error_text("the template needs the user home directory, which is unavailable"),
                    },
                );
            },
            Some(h) => {
                let val = str_to_chars(h);
                let tmp = replace_chars(&s3, &pat_user, &val);
                replace_chars(&tmp, &pat_home, &val)
            },
        }
    } else {
        s3
    };

    let out = normalize_chars(&s4);
    Ok(chars_to_string(&out))
}

/// Index of the last path separator of `s`, if any.
pub open spec fn find_last_sep(s: Seq<char>) -> Option<int>
    decreases s.len(),
{
    if s.len() == 0 {
        None
    } else if s.last() == '/' || s.last() == '\\' {
        Some(s.len() - 1)
    } else {
        find_last_sep(s.drop_last())
    }
}

/// The file-name portion of a path: the text after the last separator.
pub open spec fn file_name_spec(s: Seq<char>) -> Seq<char> {
    match find_last_sep(s) {
        None => s,
        Some(i) => s.skip(i + 1),
    }
}

/// The directory portion of a path: the text before the last separator,
/// or nothing when the path has no separator.
pub open spec fn parent_spec(s: Seq<char>) -> Option<Seq<char>> {
    match find_last_sep(s) {
        None => None,
        Some(i) => Some(s.take(i)),
    }
}

proof fn lemma_find_last_sep_bounds(s: Seq<char>)
    requires
        find_last_sep(s) is Some,
    ensures
        0 <= find_last_sep(s)->Some_0 < s.len(),
    decreases s.len(),
{
    if s.len() > 0 && !(s.last() == '/' || s.last() == '\\') {
        lemma_find_last_sep_bounds(s.drop_last());
    }
}

fn last_sep_index(v: &Vec<char>) -> (r: Option<usize>)
    ensures
        match r {
            Some(i) => Some(i as int) == find_last_sep(v@),
            None => find_last_sep(v@) is None,
        },
{
    let mut b: usize = v.len();
    assert(v@.take(v@.len() as int) =~= v@);
    while b > 0 && v[b - 1] != '/' && v[b - 1] != '\\'
        invariant
            b <= v.len(),
            find_last_sep(v@) == find_last_sep(v@.take(b as int)),
        decreases b,
    {
        proof {
            assert(v@.take(b as int).drop_last() =~= v@.take(b - 1));
        }
        b = b - 1;
    }
    if b == 0 {
        None
    } else {
        assert(v@.take(b as int).last() == v@[b - 1]);
        Some(b - 1)
    }
}

/// The file-name portion of a path: the text after the last separator.
pub fn path_file_name(path: &str) -> (r: String)
    ensures
        r@ == file_name_spec(path@),
{
    let v = str_to_chars(path);
    let start = match last_sep_index(&v) {
        None => 0,
        Some(i) => {
            proof {
                lemma_find_last_sep_bounds(v@);
            }
            i + 1
        },
    };
    let mut out: Vec<char> = Vec::new();
    crate::strutil::extend_range(&mut out, &v, start, v.len());
    assert(out@ =~= file_name_spec(path@));
    chars_to_string(&out)
}

/// The directory portion of a path, if it has one.
pub fn path_parent(path: &str) -> (r: Option<String>)
    ensures
        match r {
            Some(p) => Some(p@) == parent_spec(path@),
            None => parent_spec(path@) is None,
        },
{
    let v = str_to_chars(path);
    match last_sep_index(&v) {
        None => None,
        Some(i) => {
            proof {
                lemma_find_last_sep_bounds(v@);
            }
            let mut out: Vec<char> = Vec::new();
            crate::strutil::extend_range(&mut out, &v, 0, i);
            assert(out@ =~= parent_spec(path@)->Some_0);
            Some(chars_to_string(&out))
        },
    }
}

/// A directory path joined with a child name by a single backslash, the
/// engine's separator convention.
pub open spec fn join_spec(dir: Seq<char>, name: Seq<char>) -> Seq<char> {
    dir + seq!['\\'] + name
}

/// Joins a directory path and a child name with a backslash.
pub fn join_path(dir: &str, name: &str) -> (r: String)
    ensures
        r@ == join_spec(dir@, name@),
{
    let mut v = str_to_chars(dir);
    v.push('\\');
    let n = str_to_chars(name);
    let nlen = n.len();
    crate::strutil::extend_range(&mut v, &n, 0, nlen);
    assert(n@.subrange(0, n@.len() as int) =~= n@);
    assert(v@ =~= join_spec(dir@, name@));
    chars_to_string(&v)
}

/// Picks the user home directory from the environment values the host
/// read: the Windows profile variable wins, the POSIX one is the
/// fallback, and both are normalized.
pub fn choose_home(userprofile: Option<&str>, home: Option<&str>) -> (r: Result<String, CoreError>)
    ensures
        match r {
            Ok(p) => (userprofile is Some && p@ == normalize_spec(userprofile->Some_0@)) || (
            userprofile is None && home is Some && p@ == normalize_spec(home->Some_0@)),
            Err(e) => userprofile is None && home is None && e.kind == ErrorKind::IoFailure,
        },
{
    match userprofile {
        Some(p) => Ok(normalize_path_separators(p)),
        None => match home {
            Some(h) => Ok(normalize_path_separators(h)),
            None => Err(
                CoreError {
                    kind: ErrorKind::IoFailure,
                    message: error_text("the user home directory could not be determined"),
                },
            ),
        },
    }
}

/// Derives the application-data root: the parent of the roaming
/// directory when the host knows it, else `AppData` under the home
/// directory chosen from the given environment values.
pub fn appdata_root(appdata: Option<&str>, userprofile: Option<&str>, home: Option<&str>) -> (r:
    Result<String, CoreError>)
    ensures
        match r {
            Ok(p) => (appdata is Some && parent_spec(appdata->Some_0@) is Some && p@
                == normalize_spec(parent_spec(appdata->Some_0@)->Some_0)) || ((appdata is None
                || parent_spec(appdata->Some_0@) is None) && ((userprofile is Some && p@
                == normalize_spec(
                join_spec(normalize_spec(userprofile->Some_0@), appdata_dir_name()),
            )) || (userprofile is None && home is Some && p@ == normalize_spec(
                join_spec(normalize_spec(home->Some_0@), appdata_dir_name()),
            )))),
            Err(e) => (appdata is None || parent_spec(appdata->Some_0@) is None) && userprofile
                is None && home is None && e.kind == ErrorKind::IoFailure,
        },
{
    if let Some(roaming) = appdata {
        if let Some(parent) = path_parent(roaming) {
            return Ok(normalize_path_separators(parent.as_str()));
        }
    }
    let base = choose_home(userprofile, home)?;
    proof {
        reveal_strlit("AppData");
        assert("AppData"@ =~= appdata_dir_name());
    }
    let joined = join_path(base.as_str(), "AppData");
    Ok(normalize_path_separators(joined.as_str()))
}

/// The name of the application-data directory under a user home.
pub open spec fn appdata_dir_name() -> Seq<char> {
    seq!['A', 'p', 'p', 'D', 'a', 't', 'a']
}

/// The platform install directory is found in the host's registry, which
/// the verified core cannot reach: the host resolves it and hands the
/// result in. Here the lookup is always unavailable.
pub fn get_steam_install_dir_internal() -> (r: Result<String, String>)
    ensures
        r is Err,
{
    Err(String::from_str("the platform registry is not reachable from the verified core"))
}

/// One child of a directory listing: its name and whether it is a
/// directory.
pub struct DirChild {
    pub name: String,
    pub is_dir: bool,
}

/// The children that look like numeric user identifiers: directories
/// whose name consists of ASCII digits alone.
pub open spec fn uid_names_spec(s: Seq<DirChild>) -> Seq<Seq<char>>
    decreases s.len(),
{
    if s.len() == 0 {
        Seq::empty()
    } else {
        let rest = uid_names_spec(s.drop_last());
        let e = s.last();
        if e.is_dir && (forall|i: int|
            0 <= i < e.name@.len() ==> crate::stamp::is_digit_char(#[trigger] e.name@[i])) {
            rest.push(e.name@)
        } else {
            rest
        }
    }
}

fn all_digits(s: &String) -> (r: bool)
    ensures
        r == (forall|i: int| 0 <= i < s@.len() ==> crate::stamp::is_digit_char(#[trigger] s@[i])),
{
    let n = s.as_str().unicode_len();
    let mut i: usize = 0;
    while i < n
        invariant
            i <= n,
            n == s@.len(),
            forall|j: int| 0 <= j < i ==> crate::stamp::is_digit_char(#[trigger] s@[j]),
        decreases n - i,
    {
        let c = s.as_str().get_char(i);
        let d = c == '0' || c == '1' || c == '2' || c == '3' || c == '4' || c == '5' || c == '6'
            || c == '7' || c == '8' || c == '9';
        if !d {
            return false;
        }
        i = i + 1;
    }
    true
}

/// Filters a directory listing down to the names of numeric-identifier
/// directories, in listing order.
pub fn list_steam_uid(children: &Vec<DirChild>) -> (r: Vec<String>)
    ensures
        r.deep_view() == uid_names_spec(children@),
{
    let mut out: Vec<String> = Vec::new();
    let mut i: usize = 0;
    while i < children.len()
        invariant
            i <= children@.len(),
            out.deep_view() == uid_names_spec(children@.take(i as int)),
        decreases children@.len() - i,
    {
        let child = &children[i];
        proof {
            assert(children@.take(i + 1).drop_last() =~= children@.take(i as int));
            assert(children@.take(i + 1).last() == children@[i as int]);
        }
        if child.is_dir && all_digits(&child.name) {
            out.push(crate::config::clone_string(&child.name));
            assert(out.deep_view() =~= uid_names_spec(children@.take(i + 1)));
        } else {
            assert(out.deep_view() =~= uid_names_spec(children@.take(i + 1)));
        }
        i = i + 1;
    }
    proof {
        assert(children@.take(children@.len() as int) =~= children@);
    }
    out
}

} // verus!
