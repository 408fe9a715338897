//! The working directory, optionally shortened.

use vstd::prelude::*;

use crate::component::{spec_take_option, take_option};
use crate::context::Context;
use crate::error::Error;
use crate::shell::Shell;
use crate::utility::{spec_wrap, strs_view};

verus! {

/// Whether a character's UTF-8 encoding is a single byte. Byte-range
/// slicing of a path segment succeeds exactly when it cuts between such
/// characters.
pub open spec fn is_one_byte(c: char) -> bool {
    (c as u32) < 128
}

/// The home-directory prefix replacement: a path that starts with the
/// home directory has that prefix replaced by `~`; any other path, and any
/// path when the home directory is unknown (empty), is unchanged.
pub open spec fn spec_replace_home(cur: Seq<char>, home: Seq<char>) -> Seq<char> {
    if home.len() > 0 && home.len() <= cur.len() && cur.take(home.len() as int) == home {
        "~"@ + cur.skip(home.len() as int)
    } else {
        cur
    }
}

/// Replaces the home-directory prefix with `~`.
pub fn replace_home_dir(current_dir: &str, home_dir: &str) -> (r: String)
    ensures
        r@ == spec_replace_home(current_dir@, home_dir@),
{
    let n = current_dir.unicode_len();
    let m = home_dir.unicode_len();
    if m == 0 || m > n {
        return String::from_str(current_dir);
    }
    let mut j: usize = 0;
    proof {
        assert(current_dir@.subrange(0, 0) =~= home_dir@.take(0));
    }
    while j < m
        invariant
            m <= n,
            n == current_dir@.len(),
            m == home_dir@.len(),
            j <= m,
            current_dir@.subrange(0, j as int) == home_dir@.take(j as int),
        decreases m - j,
    {
        let ghost pre = current_dir@.subrange(0, j as int);
        let a = current_dir.get_char(j);
        let b = home_dir.get_char(j);
        if a != b {
            proof {
                if current_dir@.take(m as int) == home_dir@ {
                    assert(current_dir@.take(m as int)[j as int] == a);
                    assert(home_dir@[j as int] == b);
                }
            }
            return String::from_str(current_dir);
        }
        proof {
            assert(current_dir@.subrange(0, j as int + 1) =~= pre.push(a));
            assert(home_dir@.take(j as int + 1) =~= home_dir@.take(j as int).push(b));
        }
        j = j + 1;
    }
    proof {
        assert(home_dir@.take(m as int) =~= home_dir@);
        assert(current_dir@.subrange(0, m as int) == current_dir@.take(m as int));
    }
    let r = String::from_str("~").concat(current_dir.substring_char(m, n));
    proof {
        assert(current_dir@.subrange(m as int, n as int) =~= current_dir@.skip(m as int));
        assert(r@ =~= spec_replace_home(current_dir@, home_dir@));
    }
    return r;
}

/// The path unchanged: the `long` style.
pub fn long(current_dir: &str) -> (r: String)
    ensures
        r@ == current_dir@,
{
    String::from_str(current_dir)
}

/// The segments of a path, split at every `/`. Splitting an empty string
/// gives one empty segment; a leading `/` gives an empty first segment.
pub open spec fn spec_split(s: Seq<char>) -> Seq<Seq<char>>
    decreases s.len(),
{
    if s.len() == 0 {
        seq![s]
    } else if s[0] == '/' {
        seq![Seq::<char>::empty()] + spec_split(s.drop_first())
    } else {
        let r = spec_split(s.drop_first());
        seq![seq![s[0]] + r[0]] + r.drop_first()
    }
}

proof fn lemma_split_nonempty(s: Seq<char>)
    ensures
        spec_split(s).len() >= 1,
    decreases s.len(),
{
    if s.len() == 0 {
    } else {
        lemma_split_nonempty(s.drop_first());
    }
}

proof fn lemma_split_no_slash(s: Seq<char>)
    requires
        forall|k: int| 0 <= k < s.len() ==> s[k] != '/',
    ensures
        spec_split(s) == seq![s],
    decreases s.len(),
{
    if s.len() == 0 {
    } else {
        assert(s[0] != '/');
        lemma_split_no_slash(s.drop_first());
        let r = spec_split(s.drop_first());
        assert(r == seq![s.drop_first()]);
        assert(seq![s[0]] + s.drop_first() =~= s);
        assert(r.drop_first() =~= Seq::<Seq<char>>::empty());
        assert(spec_split(s) =~~= seq![s]);
    }
}

proof fn lemma_split_at_slash(s: Seq<char>, j: int)
    requires
        0 <= j < s.len(),
        s[j] == '/',
        forall|k: int| 0 <= k < j ==> s[k] != '/',
    ensures
        spec_split(s) == seq![s.take(j)] + spec_split(s.skip(j + 1)),
    decreases j,
{
    if j == 0 {
        assert(s.take(0) =~= Seq::<char>::empty());
        assert(s.skip(1) =~= s.drop_first());
        assert(spec_split(s) =~~= seq![s.take(0)] + spec_split(s.skip(1)));
    } else {
        assert(s[0] != '/');
        let sd = s.drop_first();
        assert(sd[j - 1] == '/');
        lemma_split_at_slash(sd, j - 1);
        assert(spec_split(sd) == seq![sd.take(j - 1)] + spec_split(sd.skip(j)));
        lemma_split_nonempty(sd.skip(j));
        assert(seq![s[0]] + spec_split(sd)[0] =~= s.take(j));
        assert(spec_split(sd).drop_first() =~= spec_split(sd.skip(j)));
        assert(sd.skip(j) =~= s.skip(j + 1));
        assert(spec_split(s) =~~= seq![s.take(j)] + spec_split(s.skip(j + 1)));
    }
}

fn split_parts(s: &str) -> (r: Vec<String>)
    ensures
        strs_view(r@) == spec_split(s@),
{
    let n = s.unicode_len();
    let mut out: Vec<String> = Vec::new();
    let mut start: usize = 0;
    let mut i: usize = 0;
    proof {
        assert(s@.skip(0) =~= s@);
        assert(strs_view(out@) + spec_split(s@.skip(0)) =~~= spec_split(s@));
    }
    while i < n
        invariant
            start <= i <= n,
            n == s@.len(),
            forall|k: int| start <= k < i ==> s@[k] != '/',
            strs_view(out@) + spec_split(s@.skip(start as int)) == spec_split(s@),
        decreases n - i,
    {
        let c = s.get_char(i);
        if c == '/' {
            let ghost pre_out = strs_view(out@);
            let seg = String::from_str(s.substring_char(start, i));
            proof {
                let tail = s@.skip(start as int);
                assert(tail[i - start] == '/');
                assert forall|k: int| 0 <= k < i - start implies tail[k] != '/' by {
                    assert(tail[k] == s@[start + k]);
                }
                lemma_split_at_slash(tail, i - start as int);
                assert(tail.take(i - start as int) =~= s@.subrange(start as int, i as int));
                assert(tail.skip(i - start as int + 1) =~= s@.skip(i as int + 1));
            }
            out.push(seg);
            proof {
                assert(strs_view(out@) =~= pre_out.push(s@.subrange(start as int, i as int)));
                assert(strs_view(out@) + spec_split(s@.skip(i as int + 1)) =~~= spec_split(s@));
            }
            start = i + 1;
        }
        i = i + 1;
    }
    let ghost pre_out = strs_view(out@);
    let seg = String::from_str(s.substring_char(start, n));
    proof {
        let tail = s@.skip(start as int);
        assert forall|k: int| 0 <= k < tail.len() implies tail[k] != '/' by {
            assert(tail[k] == s@[start + k]);
        }
        lemma_split_no_slash(tail);
        assert(tail =~= s@.subrange(start as int, n as int));
    }
    out.push(seg);
    proof {
        assert(strs_view(out@) =~= pre_out.push(s@.subrange(start as int, n as int)));
        assert(strs_view(out@) =~~= spec_split(s@));
    }
    out
}

/// The segments joined back with `/` between them.
pub open spec fn spec_join(parts: Seq<Seq<char>>) -> Seq<char>
    decreases parts.len(),
{
    if parts.len() == 0 {
        Seq::empty()
    } else if parts.len() == 1 {
        parts[0]
    } else {
        parts[0] + "/"@ + spec_join(parts.drop_first())
    }
}

proof fn lemma_join_push(parts: Seq<Seq<char>>, x: Seq<char>)
    requires
        parts.len() >= 1,
    ensures
        spec_join(parts.push(x)) == spec_join(parts) + "/"@ + x,
    decreases parts.len(),
{
    if parts.len() == 1 {
        assert(parts.push(x)[0] == parts[0]);
        assert(parts.push(x).drop_first() =~= seq![x]);
        assert(spec_join(seq![x]) == x);
        assert(spec_join(parts.push(x)) =~= spec_join(parts) + "/"@ + x);
    } else {
        assert(parts.push(x)[0] == parts[0]);
        assert(parts.push(x).drop_first() =~= parts.drop_first().push(x));
        lemma_join_push(parts.drop_first(), x);
        assert(spec_join(parts.push(x)) =~= spec_join(parts) + "/"@ + x);
    }
}

fn join_parts(parts: &Vec<String>) -> (r: String)
    requires
        parts@.len() >= 1,
    ensures
        r@ == spec_join(strs_view(parts@)),
{
    let mut r = parts[0].clone();
    proof {
        assert(strs_view(parts@).subrange(0, 1) =~= seq![parts@[0]@]);
        assert(spec_join(seq![parts@[0]@]) == parts@[0]@);
    }
    let mut i: usize = 1;
    while i < parts.len()
        invariant
            1 <= i <= parts@.len(),
            r@ == spec_join(strs_view(parts@).subrange(0, i as int)),
        decreases parts@.len() - i,
    {
        let ghost pre = strs_view(parts@).subrange(0, i as int);
        r.append("/");
        r.append(parts[i].as_str());
        proof {
            lemma_join_push(pre, parts@[i as int]@);
            assert(strs_view(parts@).subrange(0, i as int + 1) =~= pre.push(parts@[i as int]@));
        }
        i = i + 1;
    }
    proof {
        assert(strs_view(parts@).subrange(0, parts@.len() as int) =~= strs_view(parts@));
    }
    r
}

/// How a segment is shortened: its first character; its first two when it
/// starts with a dot; nothing at all when its first character is not a
/// single-byte one, since the byte-range cut then falls inside it.
pub open spec fn spec_truncate_part(p: Seq<char>) -> Seq<char> {
    if p.len() == 0 {
        p
    } else if p[0] == '.' {
        if p.len() >= 2 && is_one_byte(p[1]) {
            p.take(2)
        } else {
            p.take(1)
        }
    } else if is_one_byte(p[0]) {
        p.take(1)
    } else {
        Seq::empty()
    }
}

fn truncate_part(part: &str) -> (r: String)
    ensures
        r@ == spec_truncate_part(part@),
{
    let n = part.unicode_len();
    if n == 0 {
        let r = String::new();
        proof {
            assert(r@ =~= part@);
        }
        r
    } else {
        let c0 = part.get_char(0);
        if c0 == '.' {
            if n >= 2 && (part.get_char(1) as u32) < 128 {
                let r = String::from_str(part.substring_char(0, 2));
                proof {
                    assert(part@.subrange(0, 2) =~= part@.take(2));
                }
                r
            } else {
                let r = String::from_str(part.substring_char(0, 1));
                proof {
                    assert(part@.subrange(0, 1) =~= part@.take(1));
                }
                r
            }
        } else if (c0 as u32) < 128 {
            let r = String::from_str(part.substring_char(0, 1));
            proof {
                assert(part@.subrange(0, 1) =~= part@.take(1));
            }
            r
        } else {
            String::new()
        }
    }
}

/// The index of the last `/` in a path.
pub open spec fn spec_last_slash(s: Seq<char>) -> Option<int>
    decreases s.len(),
{
    if s.len() == 0 {
        None
    } else if s[s.len() - 1] == '/' {
        Some(s.len() - 1)
    } else {
        spec_last_slash(s.drop_last())
    }
}

/// Everything before the last `/`: the directory that holds the path's
/// last segment, or nothing when the path has no `/` at all.
pub open spec fn spec_parent(s: Seq<char>) -> Seq<char> {
    match spec_last_slash(s) {
        Some(i) => s.take(i),
        None => Seq::empty(),
    }
}

proof fn lemma_last_slash_at(s: Seq<char>, i: int)
    requires
        0 <= i < s.len(),
        s[i] == '/',
        forall|k: int| i < k < s.len() ==> s[k] != '/',
    ensures
        spec_last_slash(s) == Some(i),
    decreases s.len(),
{
    if i == s.len() - 1 {
    } else {
        assert(s[s.len() - 1] != '/');
        assert(s.drop_last()[i] == '/');
        lemma_last_slash_at(s.drop_last(), i);
    }
}

proof fn lemma_last_slash_none(s: Seq<char>)
    requires
        forall|k: int| 0 <= k < s.len() ==> s[k] != '/',
    ensures
        spec_last_slash(s) is None,
    decreases s.len(),
{
    if s.len() == 0 {
    } else {
        assert(s[s.len() - 1] != '/');
        lemma_last_slash_none(s.drop_last());
    }
}

fn parent_dir(s: &str) -> (r: String)
    ensures
        r@ == spec_parent(s@),
{
    let n = s.unicode_len();
    let mut i: usize = n;
    while i > 0
        invariant
            i <= n,
            n == s@.len(),
            forall|k: int| i <= k < n ==> s@[k] != '/',
        decreases i,
    {
        let c = s.get_char(i - 1);
        if c == '/' {
            proof {
                lemma_last_slash_at(s@, i - 1);
                assert(s@.subrange(0, i - 1) =~= s@.take(i - 1));
            }
            return String::from_str(s.substring_char(0, i - 1));
        }
        i = i - 1;
    }
    proof {
        lemma_last_slash_none(s@);
    }
    String::new()
}

/// How the working directory is displayed.
#[derive(Debug, Clone, Copy, PartialEq, Eq, Structural)]
pub enum Style {
    Default,
    Long,
    Short { underline_repo: bool, bold_repo: bool },
}

/// The decoration around the preserved repository segment.
pub open spec fn spec_decorate(p: Seq<char>, underline: bool, bold: bool, shell: Shell) -> Seq<
    char,
> {
    let p1 = if underline {
        spec_wrap(shell, "\u{1b}[4m"@) + p + spec_wrap(shell, "\u{1b}[24m"@)
    } else {
        p
    };
    if bold {
        spec_wrap(shell, "\u{1b}[1m"@) + p1 + spec_wrap(shell, "\u{1b}[21m"@)
    } else {
        p1
    }
}

/// How many segments lead up to and include the repository root, counted
/// on the repository's `.git` path with its last segment dropped and the
/// home prefix replaced, just as the displayed path is.
pub open spec fn spec_git_len(git: Seq<char>, home: Seq<char>) -> int {
    spec_split(spec_replace_home(spec_parent(git), home)).len() as int
}

/// Each segment after shortening: the repository-root segment is kept (and
/// decorated), the final segment is kept, and every other one is truncated.
pub open spec fn spec_short_parts(
    parts: Seq<Seq<char>>,
    git_len: Option<int>,
    underline: bool,
    bold: bool,
    shell: Shell,
) -> Seq<Seq<char>> {
    Seq::new(
        parts.len(),
        |i: int|
            if (git_len matches Some(l) && i == l - 1) {
                spec_decorate(parts[i], underline, bold, shell)
            } else if i == parts.len() - 1 {
                parts[i]
            } else {
                spec_truncate_part(parts[i])
            },
    )
}

/// The `short` style: every segment truncated to its head, except the
/// final one and the repository-root one.
pub open spec fn spec_short(
    full: Seq<char>,
    home: Seq<char>,
    git: Option<Seq<char>>,
    underline: bool,
    bold: bool,
    shell: Shell,
) -> Seq<char> {
    let parts = spec_split(spec_replace_home(full, home));
    let gl = match git {
        Some(g) => Some(spec_git_len(g, home)),
        None => None::<int>,
    };
    spec_join(spec_short_parts(parts, gl, underline, bold, shell))
}

/// The view of an optional path.
pub open spec fn path_opt_view(o: Option<&str>) -> Option<Seq<char>> {
    match o {
        Some(s) => Some(s@),
        None => None,
    }
}

/// Shortens the path for the `short` style: the home prefix becomes `~`,
/// and every segment except the last and the repository root is cut to its
/// first character (its first two when it starts with a dot).
pub fn short(
    full_path: &str,
    home_dir: &str,
    git_path: Option<&str>,
    underline_repo: bool,
    bold_repo: bool,
    shell: &Shell,
) -> (r: String)
    ensures
        r@ == spec_short(
            full_path@,
            home_dir@,
            path_opt_view(git_path),
            underline_repo,
            bold_repo,
            *shell,
        ),
{
    let git_path_length: Option<usize> = match git_path {
        Some(gp) => {
            let parent = parent_dir(gp);
            let rh = replace_home_dir(parent.as_str(), home_dir);
            let segs = split_parts(rh.as_str());
            proof {
                assert(segs@.len() == spec_git_len(gp@, home_dir@));
                lemma_split_nonempty(spec_replace_home(spec_parent(gp@), home_dir@));
            }
            Some(segs.len())
        },
        None => None,
    };
    let full = replace_home_dir(full_path, home_dir);
    let parts = split_parts(full.as_str());
    let n = parts.len();
    proof {
        lemma_split_nonempty(spec_replace_home(full_path@, home_dir@));
    }
    let ghost shortened = spec_short_parts(
        strs_view(parts@),
        match git_path_length {
            Some(l) => Some(l as int),
            None => None::<int>,
        },
        underline_repo,
        bold_repo,
        *shell,
    );
    let mut out_parts: Vec<String> = Vec::new();
    let mut i: usize = 0;
    proof {
        assert(strs_view(out_parts@) =~= shortened.subrange(0, 0));
    }
    while i < n
        invariant
            i <= n,
            n == parts@.len(),
            n >= 1,
            git_path_length matches Some(l) ==> l >= 1,
            shortened == spec_short_parts(
                strs_view(parts@),
                match git_path_length {
                    Some(l) => Some(l as int),
                    None => None::<int>,
                },
                underline_repo,
                bold_repo,
                *shell,
            ),
            strs_view(out_parts@) == shortened.subrange(0, i as int),
        decreases n - i,
    {
        let ghost pre = strs_view(out_parts@);
        let is_repo_part = match git_path_length {
            Some(l) => l >= 1 && i == l - 1,
            None => false,
        };
        let piece: String = if is_repo_part {
            let mut o = parts[i].clone();
            if underline_repo {
                o = crate::style::underline_start(shell).concat(o.as_str()).concat(
                    crate::style::underline_end(shell).as_str(),
                );
            }
            if bold_repo {
                o = crate::style::bold_start(shell).concat(o.as_str()).concat(
                    crate::style::bold_end(shell).as_str(),
                );
            }
            proof {
                assert(o@ =~= spec_decorate(
                    parts@[i as int]@,
                    underline_repo,
                    bold_repo,
                    *shell,
                ));
            }
            o
        } else if i + 1 == n {
            parts[i].clone()
        } else {
            truncate_part(parts[i].as_str())
        };
        proof {
            assert(piece@ == shortened[i as int]);
        }
        out_parts.push(piece);
        proof {
            assert(strs_view(out_parts@) =~= pre.push(shortened[i as int]));
            assert(strs_view(out_parts@) =~= shortened.subrange(0, i as int + 1));
        }
        i = i + 1;
    }
    proof {
        assert(shortened.subrange(0, n as int) =~= shortened);
        assert(out_parts@.len() >= 1);
    }
    let r = join_parts(&out_parts);
    r
}

/// What a boolean option's text means, if anything.
pub open spec fn spec_bool_of(s: Seq<char>) -> Option<bool> {
    if s == "true"@ {
        Some(true)
    } else if s == "false"@ {
        Some(false)
    } else {
        None
    }
}

/// Reads a boolean option's value; anything but `true` or `false` is an
/// error.
pub fn parse_boolean(input: String) -> (r: Result<bool, Error>)
    ensures
        match spec_bool_of(input@) {
            Some(b) => r == Ok::<bool, Error>(b),
            None => r == Err::<bool, Error>(Error::InvalidBoolean(input)),
        },
{
    if crate::utility::str_eq(input.as_str(), "true") {
        Ok(true)
    } else if crate::utility::str_eq(input.as_str(), "false") {
        Ok(false)
    } else {
        Err(Error::InvalidBoolean(input))
    }
}

/// What reading the `cwd` options leaves: the style, or the error, and the
/// options that remain. The decoration flags are only consumed by the
/// `short` style, and reading stops at the first bad value.
pub open spec fn spec_extract(opts: Seq<(String, String)>) -> (
    Result<Style, Error>,
    Seq<(String, String)>,
) {
    let style_t = spec_take_option(opts, "style"@);
    match style_t.0 {
        None => (Ok(Style::Default), style_t.1),
        Some(s) => if s@ == "default"@ {
            (Ok(Style::Default), style_t.1)
        } else if s@ == "long"@ {
            (Ok(Style::Long), style_t.1)
        } else if s@ == "short"@ {
            let u_t = spec_take_option(style_t.1, "underline_repo"@);
            match u_t.0 {
                Some(u) => match spec_bool_of(u@) {
                    None => (Err(Error::InvalidBoolean(u)), u_t.1),
                    Some(uv) => {
                        let b_t = spec_take_option(u_t.1, "bold_repo"@);
                        match b_t.0 {
                            Some(b) => match spec_bool_of(b@) {
                                None => (Err(Error::InvalidBoolean(b)), b_t.1),
                                Some(bv) => (
                                    Ok(Style::Short { underline_repo: uv, bold_repo: bv }),
                                    b_t.1,
                                ),
                            },
                            None => (
                                Ok(Style::Short { underline_repo: uv, bold_repo: false }),
                                b_t.1,
                            ),
                        }
                    },
                },
                None => {
                    let b_t = spec_take_option(u_t.1, "bold_repo"@);
                    match b_t.0 {
                        Some(b) => match spec_bool_of(b@) {
                            None => (Err(Error::InvalidBoolean(b)), b_t.1),
                            Some(bv) => (
                                Ok(Style::Short { underline_repo: false, bold_repo: bv }),
                                b_t.1,
                            ),
                        },
                        None => (
                            Ok(Style::Short { underline_repo: false, bold_repo: false }),
                            b_t.1,
                        ),
                    }
                },
            }
        } else {
            (Err(Error::InvalidStyle(s)), style_t.1)
        },
    }
}

/// Reads and removes the options the `cwd` component understands.
pub fn extract_options(options: &mut Vec<(String, String)>) -> (r: Result<Style, Error>)
    ensures
        r == spec_extract(old(options)@).0,
        final(options)@ == spec_extract(old(options)@).1,
{
    match take_option(options, "style") {
        None => Ok(Style::Default),
        Some(s) => {
            if crate::utility::str_eq(s.as_str(), "default") {
                Ok(Style::Default)
            } else if crate::utility::str_eq(s.as_str(), "long") {
                Ok(Style::Long)
            } else if crate::utility::str_eq(s.as_str(), "short") {
                let underline_repo = match take_option(options, "underline_repo") {
                    Some(u) => match parse_boolean(u) {
                        Ok(b) => b,
                        Err(e) => {
                            return Err(e);
                        },
                    },
                    None => false,
                };
                let bold_repo = match take_option(options, "bold_repo") {
                    Some(b) => match parse_boolean(b) {
                        Ok(b) => b,
                        Err(e) => {
                            return Err(e);
                        },
                    },
                    None => false,
                };
                Ok(Style::Short { underline_repo, bold_repo })
            } else {
                Err(Error::InvalidStyle(s))
            }
        },
    }
}

/// What the `cwd` component shows for a given style.
pub open spec fn spec_cwd_text(ctx: Context, style: Style) -> Seq<char> {
    match style {
        Style::Default => spec_replace_home(ctx.current_dir@, ctx.home_dir@),
        Style::Long => ctx.current_dir@,
        Style::Short { underline_repo, bold_repo } => spec_short(
            ctx.current_dir@,
            ctx.home_dir@,
            match ctx.repo_root {
                Some(g) => Some(g@),
                None => None,
            },
            underline_repo,
            bold_repo,
            ctx.shell,
        ),
    }
}

/// Displays the working directory, shortened or not as the options say.
pub fn display(context: &Context, options: &mut Vec<(String, String)>) -> (r: Result<
    Option<String>,
    Error,
>)
    ensures
        final(options)@ == spec_extract(old(options)@).1,
        match spec_extract(old(options)@).0 {
            Ok(style) => r matches Ok(v) && v matches Some(s) && s@ == spec_cwd_text(
                *context,
                style,
            ),
            Err(e) => r == Err::<Option<String>, Error>(e),
        },
{
    let style = match extract_options(options) {
        Ok(style) => style,
        Err(e) => {
            return Err(e);
        },
    };
    let text = match style {
        Style::Default => replace_home_dir(context.current_dir.as_str(), context.home_dir.as_str()),
        Style::Long => long(context.current_dir.as_str()),
        Style::Short { underline_repo, bold_repo } => {
            let git_path: Option<&str> = match &context.repo_root {
                Some(g) => Some(g.as_str()),
                None => None,
            };
            short(
                context.current_dir.as_str(),
                context.home_dir.as_str(),
                git_path,
                underline_repo,
                bold_repo,
                &context.shell,
            )
        },
    };
    Ok(Some(text))
}

} // verus!
