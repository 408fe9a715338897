//! The value of an environment variable.

use vstd::prelude::*;

use crate::component::{spec_take_option, take_option};
use crate::context::{spec_env_lookup, Context};
use crate::error::Error;
use crate::utility::str_opt_view;

verus! {

/// Looks up the variable named by the required `name` option. A missing
/// `name` option is an error; an unset variable is merely absent.
pub fn display(context: &Context, options: &mut Vec<(String, String)>) -> (r: Result<
    Option<String>,
    Error,
>)
    ensures
        final(options)@ == spec_take_option(old(options)@, "name"@).1,
        match spec_take_option(old(options)@, "name"@).0 {
            Some(name) => r matches Ok(v) && str_opt_view(v) == spec_env_lookup(
                context.env@,
                name@,
            ),
            None => r matches Err(e) && e is MissingEnvName,
        },
{
    match take_option(options, "name") {
        Some(name) => Ok(context.env_var(name.as_str())),
        None => Err(Error::MissingEnvName),
    }
}

} // verus!
