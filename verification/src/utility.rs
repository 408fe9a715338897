//! Small string helpers shared by the parser and the components.

use vstd::prelude::*;

use crate::shell::Shell;

verus! {

/// How an escape sequence is wrapped for `shell` so the shell knows the
/// wrapped text does not move the cursor.
pub open spec fn spec_wrap(shell: Shell, s: Seq<char>) -> Seq<char> {
    match shell {
        Shell::Zsh => "%{"@ + s + "%}"@,
        Shell::Bash => "\\["@ + s + "\\]"@,
        Shell::NoWrap => s,
    }
}

/// Include a string as a literal escape sequence. The wrapped string must
/// not change the cursor position.
pub fn wrap_no_change_cursor_position(color: &str, shell: &Shell) -> (r: String)
    ensures
        r@ == spec_wrap(*shell, color@),
{
    let r = match shell {
        Shell::Zsh => String::from_str("%{").concat(color).concat("%}"),
        Shell::Bash => String::from_str("\\[").concat(color).concat("\\]"),
        Shell::NoWrap => String::from_str(color),
    };
    proof {
        assert(r@ =~= spec_wrap(*shell, color@));
    }
    r
}

/// The views of a list of strings.
pub open spec fn strs_view(v: Seq<String>) -> Seq<Seq<char>> {
    v.map_values(|x: String| x@)
}

/// The view of an optional string.
pub open spec fn str_opt_view(o: Option<String>) -> Option<Seq<char>> {
    match o {
        Some(s) => Some(s@),
        None => None,
    }
}

/// The decimal digit character for `d`.
pub open spec fn digit_seq(d: int) -> Seq<char> {
    if d == 0 {
        "0"@
    } else if d == 1 {
        "1"@
    } else if d == 2 {
        "2"@
    } else if d == 3 {
        "3"@
    } else if d == 4 {
        "4"@
    } else if d == 5 {
        "5"@
    } else if d == 6 {
        "6"@
    } else if d == 7 {
        "7"@
    } else if d == 8 {
        "8"@
    } else {
        "9"@
    }
}

/// The decimal rendering of `n`, most significant digit first, no leading
/// zeros (except for zero itself).
pub open spec fn spec_decimal(n: nat) -> Seq<char>
    decreases n,
{
    if n < 10 {
        digit_seq(n as int)
    } else {
        spec_decimal(n / 10) + digit_seq((n % 10) as int)
    }
}

fn digit_str(d: u64) -> (r: &'static str)
    requires
        d < 10,
    ensures
        r@ == digit_seq(d as int),
{
    match d {
        0 => "0",
        1 => "1",
        2 => "2",
        3 => "3",
        4 => "4",
        5 => "5",
        6 => "6",
        7 => "7",
        8 => "8",
        _ => "9",
    }
}

/// Renders `n` in decimal.
pub fn decimal_string(n: u64) -> (r: String)
    ensures
        r@ == spec_decimal(n as nat),
    decreases n,
{
    if n < 10 {
        String::from_str(digit_str(n))
    } else {
        let r = decimal_string(n / 10).concat(digit_str(n % 10));
        proof {
            assert(r@ =~= spec_decimal(n as nat));
        }
        r
    }
}

/// True iff the two strings hold the same characters.
pub fn str_eq(a: &str, b: &str) -> (r: bool)
    ensures
        r == (a@ == b@),
{
    let alen = a.unicode_len();
    let blen = b.unicode_len();
    if alen != blen {
        return false;
    }
    let mut i: usize = 0;
    while i < alen
        invariant
            alen == a@.len(),
            blen == b@.len(),
            alen == blen,
            i <= alen,
            forall|j: int| 0 <= j < i ==> a@[j] == b@[j],
        decreases alen - i,
    {
        if a.get_char(i) != b.get_char(i) {
            return false;
        }
        i = i + 1;
    }
    proof {
        assert(a@ =~= b@);
    }
    true
}

} // verus!
