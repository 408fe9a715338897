//! The stash entry count.

use vstd::prelude::*;

use crate::context::Context;
use crate::utility::spec_decimal;

verus! {

/// The count of stash entries formatted as `<n>+`, or nothing when the
/// count is zero or there is no repository.
pub fn display(context: &Context) -> (r: Option<String>)
    ensures
        match context.git_stash_count {
            Some(count) => if count == 0 {
                r is None
            } else {
                r matches Some(s) && s@ == spec_decimal(count as nat) + "+"@
            },
            None => r is None,
        },
{
    match context.git_stash_count {
        Some(count) => {
            if count == 0 {
                None
            } else {
                let r = crate::utility::decimal_string(count).concat("+");
                Some(r)
            }
        },
        None => None,
    }
}

} // verus!
