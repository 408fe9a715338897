//! The errors a render can end in.
//!
//! Parsing fails on malformed templates; resolution fails when a component
//! invocation carries options its handler did not recognize, or misses one
//! it requires. A component that merely has nothing to show is not an
//! error: it resolves to an absent item and is handled by the squasher.

use vstd::prelude::*;

use crate::utility::{spec_decimal, decimal_string};

verus! {

/// A failed render.
#[derive(Debug, PartialEq)]
pub enum Error {
    /// The template is malformed; the payload is the character offset at
    /// which no token could be read.
    Parse(usize),
    /// A component invocation kept unrecognized options, listed here in
    /// insertion order.
    InvalidOptions(Vec<(String, String)>),
    /// The `env` component was invoked without its required `name` option.
    MissingEnvName,
    /// The `cwd` component was given an unknown `style` value.
    InvalidStyle(String),
    /// A boolean option held something other than `true` or `false`.
    InvalidBoolean(String),
}

/// The message text for a list of unconsumed options.
pub open spec fn spec_options_message(opts: Seq<(String, String)>) -> Seq<char>
    decreases opts.len(),
{
    if opts.len() == 0 {
        Seq::empty()
    } else if opts.len() == 1 {
        opts[0].0@ + "="@ + opts[0].1@
    } else {
        opts[0].0@ + "="@ + opts[0].1@ + ", "@ + spec_options_message(opts.drop_first())
    }
}

/// The message each error renders to.
pub open spec fn spec_message(e: Error) -> Seq<char> {
    match e {
        Error::Parse(offset) => "parse error: unexpected input at character "@ + spec_decimal(
            offset as nat,
        ),
        Error::InvalidOptions(opts) => "error: invalid options: "@ + spec_options_message(opts@),
        Error::MissingEnvName => "error: missing environment variable name"@,
        Error::InvalidStyle(s) => "error: invalid style: "@ + s@,
        Error::InvalidBoolean(s) => "error: invalid boolean: "@ + s@,
    }
}

impl Error {
    /// The message the caller reports for this error.
    pub fn message(&self) -> (r: String)
        ensures
            r@ == spec_message(*self),
    {
        match self {
            Error::Parse(offset) => {
                let r = String::from_str("parse error: unexpected input at character ").concat(
                    decimal_string(*offset as u64).as_str(),
                );
                proof {
                    assert(r@ =~= spec_message(*self));
                }
                r
            },
            Error::InvalidOptions(opts) => {
                let mut r = String::from_str("error: invalid options: ");
                proof {
                    assert(opts@.skip(0) =~= opts@);
                }
                let mut i: usize = 0;
                while i < opts.len()
                    invariant
                        i <= opts@.len(),
                        r@ + spec_options_message(opts@.skip(i as int)) == "error: invalid options: "@
                            + spec_options_message(opts@),
                    decreases opts@.len() - i,
                {
                    let ghost prev = r@;
                    let pair = &opts[i];
                    r.append(pair.0.as_str());
                    r.append("=");
                    r.append(pair.1.as_str());
                    if i + 1 < opts.len() {
                        r.append(", ");
                        proof {
                            assert(opts@.skip(i as int).drop_first() =~= opts@.skip(i as int + 1));
                            assert(r@ =~= prev + (opts@[i as int].0@ + "="@ + opts@[i as int].1@
                                + ", "@));
                        }
                    } else {
                        proof {
                            assert(opts@.skip(i as int).len() == 1);
                            assert(r@ =~= prev + (opts@[i as int].0@ + "="@ + opts@[i as int].1@));
                            assert(spec_options_message(opts@.skip(i as int + 1)) =~= Seq::<
                                char,
                            >::empty());
                        }
                    }
                    i = i + 1;
                }
                proof {
                    assert(spec_options_message(opts@.skip(i as int)) =~= Seq::<char>::empty());
                    assert(r@ =~= spec_message(*self));
                }
                r
            },
            Error::MissingEnvName => String::from_str("error: missing environment variable name"),
            Error::InvalidStyle(s) => {
                let r = String::from_str("error: invalid style: ").concat(s.as_str());
                proof {
                    assert(r@ =~= spec_message(*self));
                }
                r
            },
            Error::InvalidBoolean(s) => {
                let r = String::from_str("error: invalid boolean: ").concat(s.as_str());
                proof {
                    assert(r@ =~= spec_message(*self));
                }
                r
            },
        }
    }
}

} // verus!
