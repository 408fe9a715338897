//! The escape sequences behind color and attribute markers.
//!
//! Each color resolves to the 256-color foreground escape `ESC[38;5;<n>m`
//! that terminals understand, with the conventional code for that name;
//! `ESC[0m` resets. The escape is wrapped per shell so it does not count
//! against the cursor position.

use vstd::prelude::*;

use crate::shell::Shell;
use crate::token::StyleToken;
use crate::utility::{spec_wrap, wrap_no_change_cursor_position};

verus! {

/// The foreground escape sequence for each color name.
pub open spec fn fg_escape(t: StyleToken) -> Seq<char> {
    match t {
        StyleToken::Black => "\u{1b}[38;5;0m"@,
        StyleToken::DarkGrey => "\u{1b}[38;5;8m"@,
        StyleToken::Red => "\u{1b}[38;5;9m"@,
        StyleToken::DarkRed => "\u{1b}[38;5;1m"@,
        StyleToken::Green => "\u{1b}[38;5;10m"@,
        StyleToken::DarkGreen => "\u{1b}[38;5;2m"@,
        StyleToken::Yellow => "\u{1b}[38;5;11m"@,
        StyleToken::DarkYellow => "\u{1b}[38;5;3m"@,
        StyleToken::Blue => "\u{1b}[38;5;12m"@,
        StyleToken::DarkBlue => "\u{1b}[38;5;4m"@,
        StyleToken::Magenta => "\u{1b}[38;5;13m"@,
        StyleToken::DarkMagenta => "\u{1b}[38;5;5m"@,
        StyleToken::Cyan => "\u{1b}[38;5;14m"@,
        StyleToken::DarkCyan => "\u{1b}[38;5;6m"@,
        StyleToken::White => "\u{1b}[38;5;15m"@,
        StyleToken::Grey => "\u{1b}[38;5;7m"@,
    }
}

/// The raw foreground escape for a color.
fn fg_escape_str(t: &StyleToken) -> (r: &'static str)
    ensures
        r@ == fg_escape(*t),
{
    match t {
        StyleToken::Black => "\u{1b}[38;5;0m",
        StyleToken::DarkGrey => "\u{1b}[38;5;8m",
        StyleToken::Red => "\u{1b}[38;5;9m",
        StyleToken::DarkRed => "\u{1b}[38;5;1m",
        StyleToken::Green => "\u{1b}[38;5;10m",
        StyleToken::DarkGreen => "\u{1b}[38;5;2m",
        StyleToken::Yellow => "\u{1b}[38;5;11m",
        StyleToken::DarkYellow => "\u{1b}[38;5;3m",
        StyleToken::Blue => "\u{1b}[38;5;12m",
        StyleToken::DarkBlue => "\u{1b}[38;5;4m",
        StyleToken::Magenta => "\u{1b}[38;5;13m",
        StyleToken::DarkMagenta => "\u{1b}[38;5;5m",
        StyleToken::Cyan => "\u{1b}[38;5;14m",
        StyleToken::DarkCyan => "\u{1b}[38;5;6m",
        StyleToken::White => "\u{1b}[38;5;15m",
        StyleToken::Grey => "\u{1b}[38;5;7m",
    }
}

/// The wrapped "turn this color on" escape.
pub fn color_start(t: &StyleToken, shell: &Shell) -> (r: String)
    ensures
        r@ == spec_wrap(*shell, fg_escape(*t)),
{
    wrap_no_change_cursor_position(fg_escape_str(t), shell)
}

/// The wrapped "reset all colors" escape.
pub fn color_reset(shell: &Shell) -> (r: String)
    ensures
        r@ == spec_wrap(*shell, "\u{1b}[0m"@),
{
    wrap_no_change_cursor_position("\u{1b}[0m", shell)
}

/// The wrapped "underline on" escape.
pub fn underline_start(shell: &Shell) -> (r: String)
    ensures
        r@ == spec_wrap(*shell, "\u{1b}[4m"@),
{
    wrap_no_change_cursor_position("\u{1b}[4m", shell)
}

/// The wrapped "underline off" escape.
pub fn underline_end(shell: &Shell) -> (r: String)
    ensures
        r@ == spec_wrap(*shell, "\u{1b}[24m"@),
{
    wrap_no_change_cursor_position("\u{1b}[24m", shell)
}

/// The wrapped "bold on" escape.
pub fn bold_start(shell: &Shell) -> (r: String)
    ensures
        r@ == spec_wrap(*shell, "\u{1b}[1m"@),
{
    wrap_no_change_cursor_position("\u{1b}[1m", shell)
}

/// The wrapped "bold off" escape.
pub fn bold_end(shell: &Shell) -> (r: String)
    ensures
        r@ == spec_wrap(*shell, "\u{1b}[21m"@),
{
    wrap_no_change_cursor_position("\u{1b}[21m", shell)
}

} // verus!
