//! The current branch's symbolic name.

use vstd::prelude::*;

use crate::context::Context;
use crate::utility::str_opt_view;

verus! {

/// The branch name the context reports, or nothing when the head could not
/// be resolved or there is no repository.
pub fn display(context: &Context) -> (r: Option<String>)
    ensures
        str_opt_view(r) == str_opt_view(context.git_branch),
{
    match &context.git_branch {
        Some(b) => Some(b.clone()),
        None => None,
    }
}

} // verus!
