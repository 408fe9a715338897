//! The background-job indicator.

use vstd::prelude::*;

verus! {

/// The indicator the caller supplied, or nothing when there is none or it
/// is empty: an empty indicator means no background jobs to show.
pub fn display(jobs: Option<&str>) -> (r: Option<String>)
    ensures
        match jobs {
            Some(j) => if j@.len() > 0 {
                r matches Some(s) && s@ == j@
            } else {
                r is None
            },
            None => r is None,
        },
{
    match jobs {
        Some(j) => {
            if j.unicode_len() > 0 {
                Some(String::from_str(j))
            } else {
                None
            }
        },
        None => None,
    }
}

} // verus!
