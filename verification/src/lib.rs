//! Renders a shell prompt from a small template language.
//!
//! A template is parsed into a sequence of tokens (literal text, color
//! markers, component invocations, conditionals), each token is resolved
//! against a [`context::Context`] holding the state of the session, and the
//! resolved items are squashed so that color escapes never wrap content that
//! turned out to be empty.

use vstd::prelude::*;

pub mod component;
pub mod context;
pub mod error;
pub mod parser;
pub mod shell;
pub mod style;
pub mod token;
pub mod utility;

pub use shell::Shell;

use component::{ItemView, ResolveOut};
use context::Context;
use error::Error;
use token::Token;

verus! {

/// Renders the template `config` against `context`: parse, resolve, squash,
/// and return the final text pieces in order. The result is tied to the
/// whole pipeline: a template that fails the reference parse fails here
/// with that offset, and any other renders to exactly the squashed
/// resolution of its tokens. A template without braces is a single literal
/// and renders to itself, whatever the context holds.
pub fn components(config: &str, context: &Context) -> (r: Result<Vec<String>, Error>)
    ensures
        config@.len() == 0 ==> r == Err::<Vec<String>, Error>(Error::Parse(0)),
        (config@.len() > 0 && parser::no_open_brace(config@)) ==> (r matches Ok(v) && v@.len() == 1
            && v@[0]@ == config@),
        ({
            match parser::spec_parse(config@) {
                Err(off) => r matches Err(e) && (e matches Error::Parse(o) && o == off),
                Ok(tvs) => exists|ts: Seq<Token>|
                    (#[trigger] token::tokens_view(ts)) == tvs && (match component::spec_resolve(
                        ts,
                        *context,
                    ) {
                        ResolveOut::Items(items) => r matches Ok(v) && utility::strs_view(v@)
                            == component::texts_of(component::spec_squash(items)),
                        ResolveOut::Invalid(opts) => r matches Err(e) && (
                        e matches Error::InvalidOptions(v) && v@ == opts),
                        ResolveOut::Fail(e0) => r matches Err(e) && e == e0,
                    }),
            }
        }),
{
    let tokens = match parser::parse(config) {
        Ok(t) => t,
        Err(e) => {
            return Err(e);
        },
    };
    let ghost toks = tokens@;
    proof {
        if config@.len() > 0 && parser::no_open_brace(config@) {
            let x = Some(ItemView::Static(config@));
            assert(toks.drop_first().len() == 0);
            assert(component::spec_resolve(toks.drop_first(), *context) == ResolveOut::Items(
                Seq::empty(),
            ));
            assert(component::spec_resolve_one(toks[0], *context) == ResolveOut::Items(seq![x]));
            assert(seq![x] + Seq::<Option<ItemView>>::empty() =~= seq![x]);
            assert(component::spec_resolve(toks, *context) == ResolveOut::Items(seq![x]));
            let g = seq![x];
            assert(component::spec_groups_rec(g.drop_first(), g, Seq::empty())
                == Seq::<Seq<Option<ItemView>>>::empty().push(g));
            assert(g.drop_first() =~= Seq::<Option<ItemView>>::empty());
            assert(component::spec_groups(g) =~= seq![g]);
            assert(component::keep_group(g));
            assert(component::present(g.drop_first()) == Seq::<ItemView>::empty());
            assert(seq![ItemView::Static(config@)] + Seq::<ItemView>::empty() =~= seq![
                ItemView::Static(config@),
            ]);
            assert(component::present(g) =~= seq![ItemView::Static(config@)]);
            assert(seq![g].drop_first() =~= Seq::<Seq<Option<ItemView>>>::empty());
            assert(component::squash_groups(seq![g].drop_first()) == Seq::<ItemView>::empty());
            assert(component::spec_squash(g) =~= seq![ItemView::Static(config@)]);
        }
    }
    let r = component::components(tokens, context);
    proof {
        if config@.len() > 0 && parser::no_open_brace(config@) {
            assert(component::texts_of(seq![ItemView::Static(config@)]) =~= seq![config@]);
            match &r {
                Ok(v) => {
                    assert(utility::strs_view(v@)[0] == v@[0]@);
                },
                Err(_) => {},
            }
        }
        match parser::spec_parse(config@) {
            Ok(tvs) => {
                assert(token::tokens_view(toks) == tvs);
                assert(exists|ts: Seq<Token>|
                    (#[trigger] token::tokens_view(ts)) == tvs && (match component::spec_resolve(
                        ts,
                        *context,
                    ) {
                        ResolveOut::Items(items) => r matches Ok(v) && utility::strs_view(v@)
                            == component::texts_of(component::spec_squash(items)),
                        ResolveOut::Invalid(opts) => r matches Err(e) && (
                        e matches Error::InvalidOptions(v) && v@ == opts),
                        ResolveOut::Fail(e0) => r matches Err(e) && e == e0,
                    }));
            },
            Err(_) => {},
        }
    }
    r
}

} // verus!
