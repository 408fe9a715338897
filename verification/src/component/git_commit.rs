//! The current commit's abbreviated id.

use vstd::prelude::*;

use crate::context::Context;

verus! {

/// The first seven characters of a commit id (all of it, if shorter).
pub open spec fn spec_short_commit(hex: Seq<char>) -> Seq<char> {
    if hex.len() >= 7 {
        hex.subrange(0, 7)
    } else {
        hex
    }
}

/// The abbreviated id of the commit the context reports, or nothing when
/// no commit could be resolved.
pub fn display(context: &Context) -> (r: Option<String>)
    ensures
        match context.git_commit {
            Some(hex) => r matches Some(s) && s@ == spec_short_commit(hex@),
            None => r is None,
        },
{
    match &context.git_commit {
        Some(hex) => {
            let len = hex.as_str().unicode_len();
            let cut = if len >= 7 {
                7
            } else {
                len
            };
            Some(String::from_str(hex.as_str().substring_char(0, cut)))
        },
        None => None,
    }
}

} // verus!
