//! The target shell, which decides how escape sequences are wrapped.

use vstd::prelude::*;

verus! {

/// The shell the prompt is rendered for. Escape sequences that must not
/// move the cursor are wrapped differently for each.
#[derive(Debug, Clone, Copy, PartialEq, Eq, Structural)]
pub enum Shell {
    Zsh,
    Bash,
    NoWrap,
}

impl Shell {
    /// Parses the name a user passes on the command line.
    pub fn from_name(input: &str) -> (r: Option<Shell>)
        ensures
            r == (if input@ == "zsh"@ {
                Some(Shell::Zsh)
            } else if input@ == "bash"@ {
                Some(Shell::Bash)
            } else if input@ == "no_wrap"@ {
                Some(Shell::NoWrap)
            } else {
                None::<Shell>
            }),
    {
        if crate::utility::str_eq(input, "zsh") {
            Some(Shell::Zsh)
        } else if crate::utility::str_eq(input, "bash") {
            Some(Shell::Bash)
        } else if crate::utility::str_eq(input, "no_wrap") {
            Some(Shell::NoWrap)
        } else {
            None
        }
    }
}

} // verus!
