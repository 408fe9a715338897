//! The machine's hostname.

use vstd::prelude::*;

use crate::context::Context;
use crate::utility::str_opt_view;

verus! {

/// The hostname the context reports, or nothing when it is unavailable.
pub fn display(context: &Context) -> (r: Option<String>)
    ensures
        str_opt_view(r) == str_opt_view(context.hostname),
{
    match &context.hostname {
        Some(h) => Some(h.clone()),
        None => None,
    }
}

} // verus!
