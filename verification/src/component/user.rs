//! The current user's name.

use vstd::prelude::*;

use crate::context::Context;
use crate::utility::str_opt_view;

verus! {

/// The user name the context reports, or nothing when it is unavailable.
pub fn display(context: &Context) -> (r: Option<String>)
    ensures
        str_opt_view(r) == str_opt_view(context.user),
{
    match &context.user {
        Some(u) => Some(u.clone()),
        None => None,
    }
}

} // verus!
