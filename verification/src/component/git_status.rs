//! A short summary of the repository's status.

use vstd::prelude::*;

use crate::context::{Context, StatusFlags};

verus! {

/// The summary text, one sign per kind of change, in this fixed order:
/// `*` modified in the working tree, `+` new, `-` deleted, `^` staged.
pub open spec fn spec_status_text(f: StatusFlags) -> Seq<char> {
    (if f.wt_modified {
        "*"@
    } else {
        Seq::empty()
    }) + (if f.wt_new {
        "+"@
    } else {
        Seq::empty()
    }) + (if f.wt_deleted {
        "-"@
    } else {
        Seq::empty()
    }) + (if f.index_changed {
        "^"@
    } else {
        Seq::empty()
    })
}

/// The status summary, or nothing when there is no repository or none of
/// the flags apply.
pub fn display(context: &Context) -> (r: Option<String>)
    ensures
        match context.git_status {
            Some(f) => if f.wt_modified || f.wt_new || f.wt_deleted || f.index_changed {
                r matches Some(s) && s@ == spec_status_text(f)
            } else {
                r is None
            },
            None => r is None,
        },
{
    match context.git_status {
        Some(f) => {
            let mut out = String::new();
            if f.wt_modified {
                out.append("*");
            }
            if f.wt_new {
                out.append("+");
            }
            if f.wt_deleted {
                out.append("-");
            }
            if f.index_changed {
                out.append("^");
            }
            if f.wt_modified || f.wt_new || f.wt_deleted || f.index_changed {
                proof {
                    assert(out@ =~= spec_status_text(f));
                }
                Some(out)
            } else {
                None
            }
        },
        None => None,
    }
}

} // verus!
