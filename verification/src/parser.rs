//! The template parser.
//!
//! A template is a sequence of tokens: literal runs (everything up to the
//! next `{`, or the escape `{{`), color and reset markers, component
//! invocations with `key=value` options, and `{if ...}...{else}...{end}`
//! conditionals. Every alternative is tried in a fixed order at each
//! position, and the whole input must be consumed.

use vstd::prelude::*;

use crate::error::Error;
use crate::token;
use crate::token::{Condition, StyleToken, Token, TokenView};
use crate::utility::str_eq;

verus! {

/// No opening brace anywhere in the text.
pub open spec fn no_open_brace(s: Seq<char>) -> bool {
    forall|i: int| 0 <= i < s.len() ==> s[i] != '{'
}

/// Whitespace, as the grammar skips it.
pub open spec fn is_ws(c: char) -> bool {
    c == ' ' || c == '\t' || c == '\r' || c == '\n'
}

/// An ASCII letter.
pub open spec fn is_alpha(c: char) -> bool {
    ('a' <= c && c <= 'z') || ('A' <= c && c <= 'Z')
}

/// A character an identifier may hold.
pub open spec fn is_ident_char(c: char) -> bool {
    is_alpha(c) || c == '_'
}

/// A character an environment-variable name may hold.
pub open spec fn is_env_char(c: char) -> bool {
    ('A' <= c && c <= 'Z') || c == '_'
}

/// A character an option value may hold: anything but a space or `}`.
pub open spec fn is_value_char(c: char) -> bool {
    c != '}' && c != ' '
}

fn skip_ws(s: &str, pos: usize) -> (r: usize)
    requires
        pos <= s@.len(),
    ensures
        pos <= r <= s@.len(),
        forall|k: int| pos <= k < r ==> is_ws(s@[k]),
        r < s@.len() ==> !is_ws(s@[r as int]),
        r == spec_ws_end(s@, pos as int),
{
    let n = s.unicode_len();
    let mut i = pos;
    while i < n
        invariant
            pos <= i <= n,
            n == s@.len(),
            forall|k: int| pos <= k < i ==> is_ws(s@[k]),
            spec_ws_end(s@, pos as int) == spec_ws_end(s@, i as int),
        decreases n - i,
    {
        let c = s.get_char(i);
        if !(c == ' ' || c == '\t' || c == '\r' || c == '\n') {
            return i;
        }
        i = i + 1;
    }
    i
}

/// The end of the whitespace run that starts at `i`.
pub open spec fn spec_ws_end(s: Seq<char>, i: int) -> int
    decreases s.len() - i,
{
    if i < 0 || i >= s.len() || !is_ws(s[i]) {
        i
    } else {
        spec_ws_end(s, i + 1)
    }
}

/// The end of the identifier run that starts at `i`.
pub open spec fn spec_ident_end(s: Seq<char>, i: int) -> int
    decreases s.len() - i,
{
    if i < 0 || i >= s.len() || !is_ident_char(s[i]) {
        i
    } else {
        spec_ident_end(s, i + 1)
    }
}

/// The end of the option-value run that starts at `i`.
pub open spec fn spec_value_end(s: Seq<char>, i: int) -> int
    decreases s.len() - i,
{
    if i < 0 || i >= s.len() || !is_value_char(s[i]) {
        i
    } else {
        spec_value_end(s, i + 1)
    }
}

/// The end of the literal run that starts at `i`: the first `{` at or
/// after it, or the end of the text.
pub open spec fn spec_literal_end(s: Seq<char>, i: int) -> int
    decreases s.len() - i,
{
    if i < 0 || i >= s.len() || s[i] == '{' {
        i
    } else {
        spec_literal_end(s, i + 1)
    }
}

pub proof fn lemma_ws_end_bounds(s: Seq<char>, i: int)
    requires
        0 <= i <= s.len(),
    ensures
        i <= spec_ws_end(s, i) <= s.len(),
    decreases s.len() - i,
{
    if i < s.len() && is_ws(s[i]) {
        lemma_ws_end_bounds(s, i + 1);
    }
}

pub proof fn lemma_ident_end_bounds(s: Seq<char>, i: int)
    requires
        0 <= i <= s.len(),
    ensures
        i <= spec_ident_end(s, i) <= s.len(),
    decreases s.len() - i,
{
    if i < s.len() && is_ident_char(s[i]) {
        lemma_ident_end_bounds(s, i + 1);
    }
}

pub proof fn lemma_env_end_bounds(s: Seq<char>, i: int)
    requires
        0 <= i <= s.len(),
    ensures
        i <= spec_env_end(s, i) <= s.len(),
    decreases s.len() - i,
{
    if i < s.len() && is_env_char(s[i]) {
        lemma_env_end_bounds(s, i + 1);
    }
}

pub proof fn lemma_value_end_bounds(s: Seq<char>, i: int)
    requires
        0 <= i <= s.len(),
    ensures
        i <= spec_value_end(s, i) <= s.len(),
    decreases s.len() - i,
{
    if i < s.len() && is_value_char(s[i]) {
        lemma_value_end_bounds(s, i + 1);
    }
}

/// The end of the environment-variable-name run that starts at `i`.
pub open spec fn spec_env_end(s: Seq<char>, i: int) -> int
    decreases s.len() - i,
{
    if i < 0 || i >= s.len() || !is_env_char(s[i]) {
        i
    } else {
        spec_env_end(s, i + 1)
    }
}

fn scan_ident(s: &str, pos: usize) -> (r: usize)
    requires
        pos <= s@.len(),
    ensures
        pos <= r <= s@.len(),
        forall|k: int| pos <= k < r ==> is_ident_char(s@[k]),
        r < s@.len() ==> !is_ident_char(s@[r as int]),
        r == spec_ident_end(s@, pos as int),
{
    let n = s.unicode_len();
    let mut i = pos;
    while i < n
        invariant
            pos <= i <= n,
            n == s@.len(),
            forall|k: int| pos <= k < i ==> is_ident_char(s@[k]),
            spec_ident_end(s@, pos as int) == spec_ident_end(s@, i as int),
        decreases n - i,
    {
        let c = s.get_char(i);
        if !(('a' <= c && c <= 'z') || ('A' <= c && c <= 'Z') || c == '_') {
            return i;
        }
        i = i + 1;
    }
    i
}

fn scan_env(s: &str, pos: usize) -> (r: usize)
    requires
        pos <= s@.len(),
    ensures
        pos <= r <= s@.len(),
        forall|k: int| pos <= k < r ==> is_env_char(s@[k]),
        r < s@.len() ==> !is_env_char(s@[r as int]),
        r == spec_env_end(s@, pos as int),
{
    let n = s.unicode_len();
    let mut i = pos;
    while i < n
        invariant
            pos <= i <= n,
            n == s@.len(),
            forall|k: int| pos <= k < i ==> is_env_char(s@[k]),
            spec_env_end(s@, pos as int) == spec_env_end(s@, i as int),
        decreases n - i,
    {
        let c = s.get_char(i);
        if !(('A' <= c && c <= 'Z') || c == '_') {
            return i;
        }
        i = i + 1;
    }
    i
}

fn scan_value(s: &str, pos: usize) -> (r: usize)
    requires
        pos <= s@.len(),
    ensures
        pos <= r <= s@.len(),
        forall|k: int| pos <= k < r ==> is_value_char(s@[k]),
        r < s@.len() ==> !is_value_char(s@[r as int]),
        r == spec_value_end(s@, pos as int),
{
    let n = s.unicode_len();
    let mut i = pos;
    while i < n
        invariant
            pos <= i <= n,
            n == s@.len(),
            forall|k: int| pos <= k < i ==> is_value_char(s@[k]),
            spec_value_end(s@, pos as int) == spec_value_end(s@, i as int),
        decreases n - i,
    {
        let c = s.get_char(i);
        if c == '}' || c == ' ' {
            return i;
        }
        i = i + 1;
    }
    i
}

fn scan_literal(s: &str, pos: usize) -> (r: usize)
    requires
        pos <= s@.len(),
    ensures
        pos <= r <= s@.len(),
        forall|k: int| pos <= k < r ==> s@[k] != '{',
        r < s@.len() ==> s@[r as int] == '{',
        r == spec_literal_end(s@, pos as int),
{
    let n = s.unicode_len();
    let mut i = pos;
    while i < n
        invariant
            pos <= i <= n,
            n == s@.len(),
            forall|k: int| pos <= k < i ==> s@[k] != '{',
            spec_literal_end(s@, pos as int) == spec_literal_end(s@, i as int),
        decreases n - i,
    {
        let c = s.get_char(i);
        if c == '{' {
            return i;
        }
        i = i + 1;
    }
    i
}

/// True iff the text `t` stands at `pos` in `s`.
fn tag_at(s: &str, pos: usize, t: &str) -> (r: bool)
    requires
        pos <= s@.len(),
    ensures
        r == (pos + t@.len() <= s@.len() && s@.subrange(pos as int, pos + t@.len()) == t@),
{
    let n = s.unicode_len();
    let m = t.unicode_len();
    if m > n - pos {
        return false;
    }
    let mut j: usize = 0;
    proof {
        assert(s@.subrange(pos as int, pos as int) =~= t@.take(0));
    }
    while j < m
        invariant
            pos + m <= n,
            n == s@.len(),
            m == t@.len(),
            j <= m,
            s@.subrange(pos as int, pos + j as int) == t@.take(j as int),
        decreases m - j,
    {
        let ghost pre = s@.subrange(pos as int, pos + j as int);
        let a = s.get_char(pos + j);
        let b = t.get_char(j);
        proof {
            assert(s@.subrange(pos as int, pos + j as int + 1) =~= pre.push(a));
            assert(t@.take(j as int + 1) =~= t@.take(j as int).push(b));
        }
        if a != b {
            proof {
                if s@.subrange(pos as int, pos + t@.len()) == t@ {
                    assert(s@.subrange(pos as int, pos + t@.len())[j as int] == a);
                    assert(t@[j as int] == b);
                }
            }
            return false;
        }
        j = j + 1;
    }
    proof {
        assert(t@.take(m as int) =~= t@);
        assert(s@.subrange(pos as int, pos + m as int) == t@);
    }
    true
}

/// The lower-case form of an ASCII letter; any other character is itself.
pub open spec fn lower_char(c: char) -> char {
    if 'A' <= c && c <= 'Z' {
        (((c as u8) + 32) as char)
    } else {
        c
    }
}

/// The text with its ASCII letters lowered.
pub open spec fn spec_lower(s: Seq<char>) -> Seq<char> {
    s.map_values(|c: char| lower_char(c))
}

fn to_lower_char(c: char) -> (r: char)
    ensures
        r == lower_char(c),
{
    if 'A' <= c && c <= 'Z' {
        ((c as u8) + 32) as char
    } else {
        c
    }
}

/// True iff `s`, lowered, is exactly `lit`.
fn eq_lower(s: &str, lit: &str) -> (r: bool)
    ensures
        r == (spec_lower(s@) == lit@),
{
    let n = s.unicode_len();
    let m = lit.unicode_len();
    if n != m {
        return false;
    }
    let mut i: usize = 0;
    while i < n
        invariant
            i <= n,
            n == s@.len(),
            m == lit@.len(),
            n == m,
            forall|k: int| 0 <= k < i ==> lower_char(s@[k]) == lit@[k],
        decreases n - i,
    {
        let a = to_lower_char(s.get_char(i));
        let b = lit.get_char(i);
        if a != b {
            proof {
                assert(spec_lower(s@)[i as int] == lower_char(s@[i as int]));
            }
            return false;
        }
        i = i + 1;
    }
    proof {
        assert(spec_lower(s@) =~= lit@);
    }
    true
}

/// The color each lowered name stands for.
pub open spec fn spec_color_of(low: Seq<char>) -> Option<StyleToken> {
    if low == "black"@ {
        Some(StyleToken::Black)
    } else if low == "dark_grey"@ {
        Some(StyleToken::DarkGrey)
    } else if low == "red"@ {
        Some(StyleToken::Red)
    } else if low == "dark_red"@ {
        Some(StyleToken::DarkRed)
    } else if low == "green"@ {
        Some(StyleToken::Green)
    } else if low == "dark_green"@ {
        Some(StyleToken::DarkGreen)
    } else if low == "yellow"@ {
        Some(StyleToken::Yellow)
    } else if low == "dark_yellow"@ {
        Some(StyleToken::DarkYellow)
    } else if low == "blue"@ {
        Some(StyleToken::Blue)
    } else if low == "dark_blue"@ {
        Some(StyleToken::DarkBlue)
    } else if low == "magenta"@ {
        Some(StyleToken::Magenta)
    } else if low == "dark_magenta"@ {
        Some(StyleToken::DarkMagenta)
    } else if low == "cyan"@ {
        Some(StyleToken::Cyan)
    } else if low == "dark_cyan"@ {
        Some(StyleToken::DarkCyan)
    } else if low == "white"@ {
        Some(StyleToken::White)
    } else if low == "grey"@ {
        Some(StyleToken::Grey)
    } else {
        None
    }
}

/// The color a name denotes, matched without regard to letter case.
pub fn color_from_name(s: &str) -> (r: Option<StyleToken>)
    ensures
        r == spec_color_of(spec_lower(s@)),
{
    if eq_lower(s, "black") {
        Some(StyleToken::Black)
    } else if eq_lower(s, "dark_grey") {
        Some(StyleToken::DarkGrey)
    } else if eq_lower(s, "red") {
        Some(StyleToken::Red)
    } else if eq_lower(s, "dark_red") {
        Some(StyleToken::DarkRed)
    } else if eq_lower(s, "green") {
        Some(StyleToken::Green)
    } else if eq_lower(s, "dark_green") {
        Some(StyleToken::DarkGreen)
    } else if eq_lower(s, "yellow") {
        Some(StyleToken::Yellow)
    } else if eq_lower(s, "dark_yellow") {
        Some(StyleToken::DarkYellow)
    } else if eq_lower(s, "blue") {
        Some(StyleToken::Blue)
    } else if eq_lower(s, "dark_blue") {
        Some(StyleToken::DarkBlue)
    } else if eq_lower(s, "magenta") {
        Some(StyleToken::Magenta)
    } else if eq_lower(s, "dark_magenta") {
        Some(StyleToken::DarkMagenta)
    } else if eq_lower(s, "cyan") {
        Some(StyleToken::Cyan)
    } else if eq_lower(s, "dark_cyan") {
        Some(StyleToken::DarkCyan)
    } else if eq_lower(s, "white") {
        Some(StyleToken::White)
    } else if eq_lower(s, "grey") {
        Some(StyleToken::Grey)
    } else {
        None
    }
}

/// The leading identifier of the text: a run of letters and underscores,
/// unless it is empty or one of the reserved words `end` and `else`.
pub fn identifier(input: &str) -> (r: Option<String>)
    ensures
        ({
            let e = spec_ident_end(input@, 0);
            if e == 0 || input@.subrange(0, e) == "end"@ || input@.subrange(0, e) == "else"@ {
                r is None
            } else {
                r matches Some(id) && id@ == input@.subrange(0, e)
            }
        }),
{
    let e = scan_ident(input, 0);
    if e == 0 {
        return None;
    }
    let run = input.substring_char(0, e);
    if str_eq(run, "end") || str_eq(run, "else") {
        None
    } else {
        Some(String::from_str(run))
    }
}

/// The leading `$NAME` environment-variable reference of the text: the
/// name (upper-case letters and underscores) and whatever follows it.
pub fn environment_variable_name(input: &str) -> (r: Option<(String, String)>)
    ensures
        ({
            let e = spec_env_end(input@, 1);
            if input@.len() > 0 && input@[0] == '$' && e > 1 {
                r matches Some(p) && p.0@ == input@.subrange(e, input@.len() as int) && p.1@
                    == input@.subrange(1, e)
            } else {
                r is None
            }
        }),
{
    let n = input.unicode_len();
    if n == 0 || input.get_char(0) != '$' {
        return None;
    }
    let e = scan_env(input, 1);
    if e == 1 {
        return None;
    }
    let name = String::from_str(input.substring_char(1, e));
    let rest = String::from_str(input.substring_char(e, n));
    Some((rest, name))
}

/// What storing a `key=value` pair leaves: a fresh key is appended, while
/// a repeated key keeps its place and takes the new value.
pub open spec fn spec_insert_option(
    opts: Seq<(String, String)>,
    key: String,
    value: String,
) -> Seq<(String, String)>
    decreases opts.len(),
{
    if opts.len() == 0 {
        seq![(key, value)]
    } else if opts[0].0@ == key@ {
        seq![(opts[0].0, value)] + opts.drop_first()
    } else {
        seq![opts[0]] + spec_insert_option(opts.drop_first(), key, value)
    }
}

proof fn lemma_insert_option_missing(opts: Seq<(String, String)>, key: String, value: String)
    requires
        forall|j: int| 0 <= j < opts.len() ==> (#[trigger] opts[j]).0@ != key@,
    ensures
        spec_insert_option(opts, key, value) == opts.push((key, value)),
    decreases opts.len(),
{
    if opts.len() == 0 {
        assert(spec_insert_option(opts, key, value) =~= opts.push((key, value)));
    } else {
        lemma_insert_option_missing(opts.drop_first(), key, value);
        assert(spec_insert_option(opts, key, value) =~= opts.push((key, value)));
    }
}

proof fn lemma_insert_option_at(opts: Seq<(String, String)>, key: String, value: String, i: int)
    requires
        0 <= i < opts.len(),
        opts[i].0@ == key@,
        forall|j: int| 0 <= j < i ==> (#[trigger] opts[j]).0@ != key@,
    ensures
        spec_insert_option(opts, key, value) == opts.take(i) + seq![(opts[i].0, value)] + opts.skip(
            i + 1,
        ),
    decreases i,
{
    if i == 0 {
        assert(opts.take(0) =~= Seq::<(String, String)>::empty());
        assert(opts.skip(1) =~= opts.drop_first());
        assert(spec_insert_option(opts, key, value) =~= opts.take(0) + seq![(opts[0].0, value)]
            + opts.skip(1));
    } else {
        lemma_insert_option_at(opts.drop_first(), key, value, i - 1);
        assert(opts.drop_first()[i - 1] == opts[i]);
        assert(opts.drop_first().take(i - 1) =~= opts.take(i).drop_first());
        assert(opts.drop_first().skip(i) =~= opts.skip(i + 1));
        assert(spec_insert_option(opts, key, value) =~= opts.take(i) + seq![(opts[i].0, value)]
            + opts.skip(i + 1));
    }
}

/// Some option of the list bears this key.
pub open spec fn contains_key(opts: Seq<(String, String)>, k: Seq<char>) -> bool {
    exists|j: int| 0 <= j < opts.len() && (#[trigger] opts[j]).0@ == k
}

proof fn lemma_insert_option_keys(opts: Seq<(String, String)>, key: String, value: String)
    ensures
        forall|i: int|
            0 <= i < spec_insert_option(opts, key, value).len() ==> ((#[trigger] spec_insert_option(
                opts,
                key,
                value,
            )[i]).0@ == key@ || contains_key(opts, spec_insert_option(opts, key, value)[i].0@)),
    decreases opts.len(),
{
    let r = spec_insert_option(opts, key, value);
    if opts.len() == 0 {
    } else if opts[0].0@ == key@ {
        assert forall|i: int| 0 <= i < r.len() implies ((#[trigger] r[i]).0@ == key@
            || contains_key(opts, r[i].0@)) by {
            if i > 0 {
                assert(r[i] == opts[i]);
            }
        }
    } else {
        lemma_insert_option_keys(opts.drop_first(), key, value);
        let rr = spec_insert_option(opts.drop_first(), key, value);
        assert forall|i: int| 0 <= i < r.len() implies ((#[trigger] r[i]).0@ == key@
            || contains_key(opts, r[i].0@)) by {
            if i == 0 {
                assert(r[0] == opts[0]);
            } else {
                assert(r[i] == rr[i - 1]);
                if rr[i - 1].0@ != key@ {
                    let j = choose|j: int|
                        0 <= j < opts.drop_first().len() && (#[trigger] opts.drop_first()[j]).0@
                            == rr[i - 1].0@;
                    assert(opts[j + 1].0@ == rr[i - 1].0@);
                }
            }
        }
    }
}

proof fn lemma_insert_option_wf(opts: Seq<(String, String)>, key: String, value: String)
    requires
        token::wf_options(opts),
        key@.len() > 0,
        value@.len() > 0,
    ensures
        token::wf_options(spec_insert_option(opts, key, value)),
    decreases opts.len(),
{
    let r = spec_insert_option(opts, key, value);
    if opts.len() == 0 {
    } else if opts[0].0@ == key@ {
        assert forall|i: int, j: int| 0 <= i < j < r.len() implies (#[trigger] r[i]).0@ != (
        #[trigger] r[j]).0@ by {
            assert(r[j] == opts[j]);
            if i > 0 {
                assert(r[i] == opts[i]);
            } else {
                assert(r[0].0 == opts[0].0);
            }
        }
        assert forall|i: int| 0 <= i < r.len() implies (#[trigger] r[i]).0@.len() > 0
            && r[i].1@.len() > 0 by {
            if i > 0 {
                assert(r[i] == opts[i]);
            }
        }
    } else {
        let tail = opts.drop_first();
        assert forall|i: int| 0 <= i < tail.len() implies (#[trigger] tail[i]).0@.len() > 0
            && tail[i].1@.len() > 0 by {
            assert(tail[i] == opts[i + 1]);
        }
        assert forall|i: int, j: int| 0 <= i < j < tail.len() implies (#[trigger] tail[i]).0@ != (
        #[trigger] tail[j]).0@ by {
            assert(tail[i] == opts[i + 1]);
            assert(tail[j] == opts[j + 1]);
        }
        lemma_insert_option_wf(tail, key, value);
        lemma_insert_option_keys(tail, key, value);
        let rr = spec_insert_option(tail, key, value);
        assert forall|i: int, j: int| 0 <= i < j < r.len() implies (#[trigger] r[i]).0@ != (
        #[trigger] r[j]).0@ by {
            if i == 0 {
                assert(r[0] == opts[0]);
                assert(r[j] == rr[j - 1]);
                if rr[j - 1].0@ == key@ {
                } else {
                    let k = choose|k: int|
                        0 <= k < tail.len() && (#[trigger] tail[k]).0@ == rr[j - 1].0@;
                    assert(tail[k] == opts[k + 1]);
                }
            } else {
                assert(r[i] == rr[i - 1]);
                assert(r[j] == rr[j - 1]);
            }
        }
        assert forall|i: int| 0 <= i < r.len() implies (#[trigger] r[i]).0@.len() > 0
            && r[i].1@.len() > 0 by {
            if i == 0 {
                assert(r[0] == opts[0]);
            } else {
                assert(r[i] == rr[i - 1]);
            }
        }
    }
}

/// Stores a `key=value` pair: a later pair under an existing key replaces
/// that key's value in place.
fn insert_option(options: &mut Vec<(String, String)>, key: String, value: String)
    ensures
        final(options)@ == spec_insert_option(old(options)@, key, value),
{
    let mut i: usize = 0;
    while i < options.len()
        invariant
            options@ == old(options)@,
            i <= options@.len(),
            forall|j: int| 0 <= j < i ==> (#[trigger] options@[j]).0@ != key@,
        decreases options@.len() - i,
    {
        let hit = str_eq(options[i].0.as_str(), key.as_str());
        if hit {
            proof {
                lemma_insert_option_at(options@, key, value, i as int);
            }
            let pair = options.remove(i);
            options.insert(i, (pair.0, value));
            proof {
                assert(options@ =~= old(options)@.take(i as int) + seq![
                    (old(options)@[i as int].0, value),
                ] + old(options)@.skip(i as int + 1));
            }
            return;
        }
        i = i + 1;
    }
    proof {
        lemma_insert_option_missing(options@, key, value);
    }
    options.push((key, value));
}

/// What storing a pair leaves, over option images.
pub open spec fn spec_insert_pair(
    opts: Seq<(Seq<char>, Seq<char>)>,
    key: Seq<char>,
    value: Seq<char>,
) -> Seq<(Seq<char>, Seq<char>)>
    decreases opts.len(),
{
    if opts.len() == 0 {
        seq![(key, value)]
    } else if opts[0].0 == key {
        seq![(opts[0].0, value)] + opts.drop_first()
    } else {
        seq![opts[0]] + spec_insert_pair(opts.drop_first(), key, value)
    }
}

proof fn lemma_insert_pair_view(opts: Seq<(String, String)>, key: String, value: String)
    ensures
        token::pairs_view(spec_insert_option(opts, key, value)) == spec_insert_pair(
            token::pairs_view(opts),
            key@,
            value@,
        ),
    decreases opts.len(),
{
    if opts.len() == 0 {
        assert(token::pairs_view(spec_insert_option(opts, key, value)) =~= spec_insert_pair(
            token::pairs_view(opts),
            key@,
            value@,
        ));
    } else if opts[0].0@ == key@ {
        assert(token::pairs_view(opts)[0] == (opts[0].0@, opts[0].1@));
        assert(token::pairs_view(spec_insert_option(opts, key, value)) =~= spec_insert_pair(
            token::pairs_view(opts),
            key@,
            value@,
        ));
    } else {
        lemma_insert_pair_view(opts.drop_first(), key, value);
        assert(token::pairs_view(opts)[0] == (opts[0].0@, opts[0].1@));
        assert(token::pairs_view(opts).drop_first() =~= token::pairs_view(opts.drop_first()));
        assert(token::pairs_view(spec_insert_option(opts, key, value)) =~= spec_insert_pair(
            token::pairs_view(opts),
            key@,
            value@,
        ));
    }
}

/// The `key=value` pairs read from `cur` on, and where reading stops: a
/// pair needs a non-empty key (after whitespace), `=` right after it, and
/// a non-empty value.
pub open spec fn spec_kv_loop(
    s: Seq<char>,
    cur: int,
    acc: Seq<(Seq<char>, Seq<char>)>,
) -> (Seq<(Seq<char>, Seq<char>)>, int)
    decreases s.len() - cur,
    when 0 <= cur <= s.len()
{
    let ks = spec_ws_end(s, cur);
    let ke = spec_ident_end(s, ks);
    if ke == ks {
        (acc, cur)
    } else if !(ke < s.len() && s[ke] == '=') {
        (acc, cur)
    } else {
        let ve = spec_value_end(s, ke + 1);
        if ve == ke + 1 {
            (acc, cur)
        } else {
            proof {
                lemma_ws_end_bounds(s, cur);
                lemma_ident_end_bounds(s, ks);
                lemma_value_end_bounds(s, ke + 1);
            }
            spec_kv_loop(s, ve, spec_insert_pair(acc, s.subrange(ks, ke), s.subrange(ke + 1, ve)))
        }
    }
}

/// The color or reset token an identifier run denotes, when a `}` closes
/// it: color names and `reset` match without regard to letter case.
pub open spec fn spec_try_color_reset(s: Seq<char>, i1: int, i2: int) -> Option<(TokenView, int)> {
    if i2 > i1 {
        let j = spec_ws_end(s, i2);
        if j < s.len() && s[j] == '}' {
            let low = spec_lower(s.subrange(i1, i2));
            match spec_color_of(low) {
                Some(st) => Some((TokenView::Color(st), j + 1)),
                None => if low == "reset"@ {
                    Some((TokenView::Reset, j + 1))
                } else {
                    None
                },
            }
        } else {
            None
        }
    } else {
        None
    }
}

/// The condition standing right after `if` at `i1 + 2`: the fixed
/// last-command identifier, or a `$NAME` environment reference.
pub open spec fn spec_cond_head(s: Seq<char>, i1: int) -> Option<(token::ConditionView, int)> {
    let k2 = spec_ws_end(s, i1 + 2);
    let k3 = spec_ident_end(s, k2);
    if k3 > k2 {
        if s.subrange(k2, k3) == "last_command_status"@ {
            Some((token::ConditionView::LastCommandStatus, k3))
        } else {
            None
        }
    } else if k2 < s.len() && s[k2] == '$' {
        let k4 = spec_env_end(s, k2 + 1);
        if k4 > k2 + 1 {
            Some((token::ConditionView::EnvironmentVariable(s.subrange(k2 + 1, k4)), k4))
        } else {
            None
        }
    } else {
        None
    }
}

/// The text `t` stands at `pos` in `s`.
pub open spec fn spec_tag_at(s: Seq<char>, pos: int, t: Seq<char>) -> bool {
    0 <= pos && pos + t.len() <= s.len() && s.subrange(pos, pos + t.len()) == t
}

/// The component invocation an identifier run opens, with its options,
/// when a known name and a closing `}` stand there.
pub open spec fn spec_try_component(s: Seq<char>, i1: int, i2: int) -> Option<(TokenView, int)>
    recommends
        0 <= i2 <= s.len(),
{
    if i2 > i1 {
        match token::spec_component_of(s.subrange(i1, i2)) {
            Some(cname) => {
                let kv = spec_kv_loop(s, i2, Seq::empty());
                let e = spec_ws_end(s, kv.1);
                if e < s.len() && s[e] == '}' {
                    Some((TokenView::Component { name: cname, options: kv.0 }, e + 1))
                } else {
                    None
                }
            },
            None => None,
        }
    } else {
        None
    }
}

/// The reference parse of one token at `pos`: the token's image and the
/// position after it, or nothing when no alternative stands there. The
/// alternatives are tried in a fixed order: a literal run, the `{{`
/// escape, a color or reset marker, a conditional, a component
/// invocation. A nested parse always lands between its start and the end
/// of the text; the bounds guards on its landing position only carry that
/// fact for termination.
pub open spec fn spec_parse_one(s: Seq<char>, pos: int) -> Option<(TokenView, int)>
    decreases s.len() - pos, 0int,
    when 0 <= pos <= s.len()
{
    if pos >= s.len() {
        None
    } else if s[pos] != '{' {
        Some((TokenView::Static(s.subrange(pos, spec_literal_end(s, pos))), spec_literal_end(s, pos)))
    } else if pos + 1 < s.len() && s[pos + 1] == '{' {
        Some((TokenView::Static(s.subrange(pos, pos + 2)), pos + 2))
    } else {
        let i1 = spec_ws_end(s, pos + 1);
        let i2 = spec_ident_end(s, i1);
        match spec_try_color_reset(s, i1, i2) {
            Some(p) => Some(p),
            None => {
                let conditional = if i1 < s.len() && s.len() - i1 >= 2 && s[i1] == 'i' && s[i1 + 1]
                    == 'f' {
                    match spec_cond_head(s, i1) {
                        Some((cond, k5)) => {
                            let k6 = spec_ws_end(s, k5);
                            if k6 < s.len() && s[k6] == '}' {
                                proof {
                                    lemma_ws_end_bounds(s, pos + 1);
                                    lemma_ws_end_bounds(s, i1 + 2);
                                    lemma_ident_end_bounds(s, spec_ws_end(s, i1 + 2));
                                    if spec_ws_end(s, i1 + 2) < s.len() {
                                        lemma_env_end_bounds(s, spec_ws_end(s, i1 + 2) + 1);
                                    }
                                    lemma_ws_end_bounds(s, k5);
                                }
                                let lt = spec_parse_tokens(s, k6 + 1);
                                let left = lt.0;
                                let k7 = if k6 + 1 <= lt.1 <= s.len() {
                                    lt.1
                                } else {
                                    k6 + 1
                                };
                                if left.len() > 0 {
                                    if spec_tag_at(s, k7, "{else}"@) {
                                        proof {
                                            reveal_strlit("{else}");
                                        }
                                        let rt = spec_parse_tokens(s, k7 + 6);
                                        let right = rt.0;
                                        let k9 = if k7 + 6 <= rt.1 <= s.len() {
                                            rt.1
                                        } else {
                                            k7 + 6
                                        };
                                        if right.len() > 0 && spec_tag_at(s, k9, "{end}"@) {
                                            Some(
                                                (
                                                    TokenView::Conditional {
                                                        condition: cond,
                                                        left,
                                                        right: Some(right),
                                                    },
                                                    k9 + 5,
                                                ),
                                            )
                                        } else {
                                            None
                                        }
                                    } else if spec_tag_at(s, k7, "{end}"@) {
                                        Some(
                                            (
                                                TokenView::Conditional {
                                                    condition: cond,
                                                    left,
                                                    right: None,
                                                },
                                                k7 + 5,
                                            ),
                                        )
                                    } else {
                                        None
                                    }
                                } else {
                                    None
                                }
                            } else {
                                None
                            }
                        },
                        None => None,
                    }
                } else {
                    None
                };
                match conditional {
                    Some(p) => Some(p),
                    None => spec_try_component(s, i1, i2),
                }
            },
        }
    }
}

/// The reference parse from `start` on: the images of the tokens read for
/// as long as one can be read, and the position where reading stops. A
/// token always stands at a position strictly before the position after
/// it; the guards below only carry that fact for termination.
pub open spec fn spec_parse_tokens(s: Seq<char>, start: int) -> (Seq<TokenView>, int)
    decreases s.len() - start, 1int,
    when 0 <= start <= s.len()
{
    if start >= s.len() {
        (Seq::empty(), start)
    } else {
        match spec_parse_one(s, start) {
            None => (Seq::empty(), start),
            Some((tv, np)) => {
                let np1 = if start < np <= s.len() {
                    np
                } else {
                    start + 1
                };
                let rest = spec_parse_tokens(s, np1);
                (seq![tv] + rest.0, rest.1)
            },
        }
    }
}

/// The reference parse of a whole template: its token images, or the
/// offset at which no token could be read. The whole input must be
/// consumed and a template holds at least one token.
pub open spec fn spec_parse(s: Seq<char>) -> Result<Seq<TokenView>, int> {
    let full = spec_parse_tokens(s, 0);
    if full.0.len() == 0 || full.1 != s.len() {
        Err(full.1)
    } else {
        Ok(full.0)
    }
}

/// Reads one token at `pos`, or nothing when no alternative matches there.
fn parse_one(s: &str, pos: usize) -> (r: Option<(Token, usize)>)
    requires
        pos <= s@.len(),
    ensures
        r matches Some(p) ==> pos < p.1 <= s@.len() && token::wf_token(p.0),
        (pos < s@.len() && s@[pos as int] != '{') ==> (r matches Some(p)
            && (p.1 == s@.len() || s@[p.1 as int] == '{')
            && (forall|k: int| pos <= k < p.1 ==> s@[k] != '{')
            && (p.0 matches Token::Static(t) && t@ == s@.subrange(pos as int, p.1 as int))),
        ({
            match spec_parse_one(s@, pos as int) {
                Some(p) => r matches Some(q) && token::token_view(q.0) == p.0 && q.1 == p.1,
                None => r is None,
            }
        }),
    decreases s@.len() - pos, 0int,
{
    let n = s.unicode_len();
    if pos >= n {
        return None;
    }
    let c = s.get_char(pos);
    if c != '{' {
        let end = scan_literal(s, pos);
        proof {
            assert(s@[pos as int] != '{');
            assert(end > pos);
        }
        let text = String::from_str(s.substring_char(pos, end));
        proof {
            assert(spec_parse_one(s@, pos as int) == Some(
                (TokenView::Static(s@.subrange(pos as int, end as int)), end as int),
            ));
        }
        return Some((Token::Static(text), end));
    }
    // An escaped `{{` is a literal.
    if pos + 1 < n && s.get_char(pos + 1) == '{' {
        let text = String::from_str(s.substring_char(pos, pos + 2));
        proof {
            assert(spec_parse_one(s@, pos as int) == Some(
                (TokenView::Static(s@.subrange(pos as int, pos as int + 2)), pos as int + 2),
            ));
        }
        return Some((Token::Static(text), pos + 2));
    }
    // Identifier after `{` and optional whitespace.
    let i1 = skip_ws(s, pos + 1);
    let i2 = scan_ident(s, i1);
    // A color name or `reset`, closed by `}`.
    if i2 > i1 {
        let name = s.substring_char(i1, i2);
        let j = skip_ws(s, i2);
        if j < n && s.get_char(j) == '}' {
            match color_from_name(name) {
                Some(st) => {
                    proof {
                        assert(spec_try_color_reset(s@, i1 as int, i2 as int) == Some(
                            (TokenView::Color(st), j as int + 1),
                        ));
                        assert(spec_parse_one(s@, pos as int) == Some(
                            (TokenView::Color(st), j as int + 1),
                        ));
                    }
                    return Some((Token::Color(st), j + 1));
                },
                None => {
                    if eq_lower(name, "reset") {
                        proof {
                            assert(spec_try_color_reset(s@, i1 as int, i2 as int) == Some(
                                (TokenView::Reset, j as int + 1),
                            ));
                            assert(spec_parse_one(s@, pos as int) == Some(
                                (TokenView::Reset, j as int + 1),
                            ));
                        }
                        return Some((Token::Reset, j + 1));
                    }
                },
            }
        }
    }
    proof {
        assert(spec_try_color_reset(s@, i1 as int, i2 as int) is None);
    }
    // A conditional: `if` right after the brace, then a condition.
    if i1 < n && n - i1 >= 2 && s.get_char(i1) == 'i' && s.get_char(i1 + 1) == 'f' {
        let k2 = skip_ws(s, i1 + 2);
        let k3 = scan_ident(s, k2);
        let cond_end: Option<(Condition, usize)> = if k3 > k2 {
            match Condition::from_name(s.substring_char(k2, k3)) {
                Some(cond) => Some((cond, k3)),
                None => None,
            }
        } else if k2 < n && s.get_char(k2) == '$' {
            let k4 = scan_env(s, k2 + 1);
            if k4 > k2 + 1 {
                Some((Condition::EnvironmentVariable(String::from_str(s.substring_char(k2 + 1, k4))), k4))
            } else {
                None
            }
        } else {
            None
        };
        proof {
            match &cond_end {
                Some((cond, k5)) => {
                    assert(spec_cond_head(s@, i1 as int) == Some(
                        (token::condition_view(*cond), *k5 as int),
                    ));
                },
                None => {
                    assert(spec_cond_head(s@, i1 as int) is None);
                },
            }
        }
        match cond_end {
            Some((cond, k5)) => {
                let k6 = skip_ws(s, k5);
                if k6 < n && s.get_char(k6) == '}' {
                    proof {
                        reveal_strlit("{else}");
                        reveal_strlit("{end}");
                    }
                    let (left, k7) = parse_tokens(s, k6 + 1);
                    proof {
                        assert(token::tokens_view(left@) == spec_parse_tokens(
                            s@,
                            k6 as int + 1,
                        ).0);
                        assert(k7 as int == spec_parse_tokens(s@, k6 as int + 1).1);
                        token::lemma_tokens_view_len(left@);
                    }
                    if left.len() > 0 {
                        if tag_at(s, k7, "{else}") {
                            let (right, k9) = parse_tokens(s, k7 + 6);
                            proof {
                                assert(token::tokens_view(right@) == spec_parse_tokens(
                                    s@,
                                    k7 as int + 6,
                                ).0);
                                assert(k9 as int == spec_parse_tokens(s@, k7 as int + 6).1);
                                token::lemma_tokens_view_len(right@);
                            }
                            if right.len() > 0 && tag_at(s, k9, "{end}") {
                                let t = Token::Conditional {
                                    condition: cond,
                                    left,
                                    right: Some(right),
                                };
                                proof {
                                    assert(spec_parse_one(s@, pos as int) == Some(
                                        (token::token_view(t), k9 as int + 5),
                                    ));
                                }
                                return Some((t, k9 + 5));
                            }
                        } else if tag_at(s, k7, "{end}") {
                            let t = Token::Conditional { condition: cond, left, right: None };
                            proof {
                                assert(spec_parse_one(s@, pos as int) == Some(
                                    (token::token_view(t), k7 as int + 5),
                                ));
                            }
                            return Some((t, k7 + 5));
                        }
                    }
                }
            },
            None => {},
        }
    }
    // A component invocation with `key=value` options.
    if i2 > i1 {
        match token::Component::from_name(s.substring_char(i1, i2)) {
            Some(cname) => {
                let mut options: Vec<(String, String)> = Vec::new();
                let mut cur = i2;
                proof {
                    assert(token::pairs_view(options@) =~= Seq::<(Seq<char>, Seq<char>)>::empty());
                }
                loop
                    invariant
                        i2 <= cur <= n,
                        n == s@.len(),
                        token::wf_options(options@),
                        spec_kv_loop(s@, i2 as int, Seq::empty()) == spec_kv_loop(
                            s@,
                            cur as int,
                            token::pairs_view(options@),
                        ),
                    ensures
                        i2 <= cur <= n,
                        token::wf_options(options@),
                        spec_kv_loop(s@, i2 as int, Seq::empty()) == (
                            token::pairs_view(options@),
                            cur as int,
                        ),
                    decreases n - cur,
                {
                    let ks = skip_ws(s, cur);
                    let ke = scan_ident(s, ks);
                    if ke == ks {
                        break;
                    }
                    if !(ke < n && s.get_char(ke) == '=') {
                        break;
                    }
                    let ve = scan_value(s, ke + 1);
                    if ve == ke + 1 {
                        break;
                    }
                    let key = String::from_str(s.substring_char(ks, ke));
                    let value = String::from_str(s.substring_char(ke + 1, ve));
                    proof {
                        lemma_insert_option_wf(options@, key, value);
                        lemma_insert_pair_view(options@, key, value);
                        assert(spec_kv_loop(s@, cur as int, token::pairs_view(options@))
                            == spec_kv_loop(
                            s@,
                            ve as int,
                            spec_insert_pair(
                                token::pairs_view(options@),
                                s@.subrange(ks as int, ke as int),
                                s@.subrange(ke as int + 1, ve as int),
                            ),
                        ));
                    }
                    insert_option(&mut options, key, value);
                    cur = ve;
                }
                let e = skip_ws(s, cur);
                if e < n && s.get_char(e) == '}' {
                    let t = Token::Component { name: cname, options };
                    proof {
                        assert(spec_try_component(s@, i1 as int, i2 as int) == Some(
                            (token::token_view(t), e as int + 1),
                        ));
                        assert(spec_parse_one(s@, pos as int) == Some(
                            (token::token_view(t), e as int + 1),
                        ));
                    }
                    return Some((t, e + 1));
                }
                proof {
                    assert(spec_try_component(s@, i1 as int, i2 as int) is None);
                }
            },
            None => {
                proof {
                    assert(spec_try_component(s@, i1 as int, i2 as int) is None);
                }
            },
        }
    }
    proof {
        assert(spec_try_component(s@, i1 as int, i2 as int) is None);
        assert(spec_parse_one(s@, pos as int) is None);
    }
    None
}

/// Reads tokens from `start` for as long as one can be read.
fn parse_tokens(s: &str, start: usize) -> (r: (Vec<Token>, usize))
    requires
        start <= s@.len(),
    ensures
        start <= r.1 <= s@.len(),
        token::wf_tokens(r.0@),
        token::tokens_view(r.0@) == spec_parse_tokens(s@, start as int).0,
        r.1 == spec_parse_tokens(s@, start as int).1,
        r.0@.len() == 0 ==> r.1 == start,
        r.0@.len() > 0 ==> r.1 > start,
        (start < s@.len() && no_open_brace(s@.subrange(start as int, s@.len() as int))) ==> (r.1
            == s@.len() && r.0@.len() == 1 && (r.0@[0] matches Token::Static(t) && t@
            == s@.subrange(start as int, s@.len() as int))),
    decreases s@.len() - start, 1int,
{
    let n = s.unicode_len();
    let mut toks: Vec<Token> = Vec::new();
    let mut pos = start;
    proof {
        assert(token::tokens_view(toks@) =~= Seq::<TokenView>::empty());
    }
    while pos < n
        invariant
            start <= pos <= n,
            n == s@.len(),
            token::wf_tokens(toks@),
            toks@.len() == 0 ==> pos == start,
            toks@.len() > 0 ==> pos > start,
            spec_parse_tokens(s@, start as int).0 == token::tokens_view(toks@)
                + spec_parse_tokens(s@, pos as int).0,
            spec_parse_tokens(s@, start as int).1 == spec_parse_tokens(s@, pos as int).1,
            (start < s@.len() && no_open_brace(s@.subrange(start as int, s@.len() as int))) ==> ((
            pos == start && toks@.len() == 0) || (pos == n && toks@.len() == 1 && (
            toks@[0] matches Token::Static(t) && t@ == s@.subrange(
                start as int,
                s@.len() as int,
            )))),
        decreases n - pos,
    {
        let ghost old_toks = toks@;
        let ghost old_pos = pos as int;
        match parse_one(s, pos) {
            Some((t, np)) => {
                proof {
                    if start < s@.len() && no_open_brace(
                        s@.subrange(start as int, s@.len() as int),
                    ) {
                        assert(s@[pos as int] == s@.subrange(start as int, s@.len() as int)[pos
                            - start]);
                        assert(s@[pos as int] != '{');
                        if np < n {
                            assert(s@[np as int] == s@.subrange(start as int, s@.len() as int)[np
                                - start]);
                        }
                        assert(np == n);
                        assert(s@.subrange(pos as int, np as int) == s@.subrange(
                            start as int,
                            s@.len() as int,
                        ));
                    }
                    assert(spec_parse_one(s@, old_pos) == Some(
                        (token::token_view(t), np as int),
                    ));
                    assert(spec_parse_tokens(s@, old_pos).0 == seq![token::token_view(t)]
                        + spec_parse_tokens(s@, np as int).0);
                    assert(spec_parse_tokens(s@, old_pos).1 == spec_parse_tokens(
                        s@,
                        np as int,
                    ).1);
                }
                toks.push(t);
                pos = np;
                proof {
                    assert(toks@[toks@.len() - 1] == t);
                    assert forall|k: int| 0 <= k < toks@.len() implies token::wf_token(
                        #[trigger] toks@[k],
                    ) by {
                        if k < toks@.len() - 1 {
                            assert(toks@[k] == old_toks[k]);
                        }
                    }
                    token::lemma_tokens_view_push(old_toks, t);
                    assert(token::tokens_view(old_toks) + (seq![token::token_view(t)]
                        + spec_parse_tokens(s@, pos as int).0) =~= token::tokens_view(toks@)
                        + spec_parse_tokens(s@, pos as int).0);
                }
            },
            None => {
                proof {
                    if start < s@.len() && no_open_brace(
                        s@.subrange(start as int, s@.len() as int),
                    ) {
                        assert(s@[pos as int] == s@.subrange(start as int, s@.len() as int)[pos
                            - start]);
                        assert(false);
                    }
                    assert(spec_parse_tokens(s@, pos as int) == (Seq::<TokenView>::empty(),
                    pos as int));
                    assert(token::tokens_view(toks@) + Seq::<TokenView>::empty()
                        =~= token::tokens_view(toks@));
                }
                return (toks, pos);
            },
        }
    }
    proof {
        assert(spec_parse_tokens(s@, pos as int) == (Seq::<TokenView>::empty(), pos as int));
        assert(token::tokens_view(toks@) + Seq::<TokenView>::empty() =~= token::tokens_view(
            toks@,
        ));
    }
    (toks, pos)
}

/// Parses a whole template into its tokens. The entire input must be
/// consumed, and a template holds at least one token: otherwise the error
/// carries the offset at which no token could be read.
pub fn parse(input: &str) -> (r: Result<Vec<Token>, Error>)
    ensures
        input@.len() == 0 ==> (r matches Err(e) && e == Error::Parse(0)),
        (input@.len() > 0 && no_open_brace(input@)) ==> (r matches Ok(v) && v@.len() == 1 && (
        v@[0] matches Token::Static(t) && t@ == input@)),
        r matches Err(e) ==> (e matches Error::Parse(off) && off <= input@.len()),
        r matches Ok(v) ==> v@.len() > 0 && token::wf_tokens(v@),
        ({
            match spec_parse(input@) {
                Ok(tvs) => r matches Ok(v) && token::tokens_view(v@) == tvs,
                Err(off) => r matches Err(e) && (e matches Error::Parse(o) && o == off),
            }
        }),
{
    let n = input.unicode_len();
    let (tokens, end) = parse_tokens(input, 0);
    proof {
        if input@.len() > 0 && no_open_brace(input@) {
            assert(input@.subrange(0, input@.len() as int) =~= input@);
        }
        token::lemma_tokens_view_len(tokens@);
    }
    if tokens.len() == 0 || end != n {
        Err(Error::Parse(end))
    } else {
        Ok(tokens)
    }
}

} // verus!
