//! Resolved items and the squashing pass.
//!
//! Resolving turns every token into at most one [`Component`]: literal text,
//! a color escape, a reset escape, or a computed value; a component that had
//! nothing to show resolves to `None`. Squashing then partitions the items
//! into groups bounded by color and reset escapes and drops every group
//! whose only contribution would have been decoration around absent values.

use vstd::prelude::*;

use crate::context::{spec_env_lookup, Context};
use crate::error::Error;
use crate::style::fg_escape;
use crate::token;
use crate::token::{Condition, Token};
use crate::utility::{spec_decimal, spec_wrap, strs_view};

pub mod cwd;
pub mod env;
pub mod git_branch;
pub mod git_commit;
pub mod git_stash;
pub mod git_status;
pub mod hostname;
pub mod jobs;
pub mod user;

verus! {

/// What removing `key` from an option list leaves: the value of its first
/// entry with that key, if any, and the remaining entries in order.
pub open spec fn spec_take_option(opts: Seq<(String, String)>, key: Seq<char>) -> (
    Option<String>,
    Seq<(String, String)>,
)
    decreases opts.len(),
{
    if opts.len() == 0 {
        (None, opts)
    } else if opts[0].0@ == key {
        (Some(opts[0].1), opts.drop_first())
    } else {
        let r = spec_take_option(opts.drop_first(), key);
        (r.0, seq![opts[0]] + r.1)
    }
}

proof fn lemma_take_option_missing(opts: Seq<(String, String)>, key: Seq<char>)
    requires
        forall|j: int| 0 <= j < opts.len() ==> (#[trigger] opts[j]).0@ != key,
    ensures
        spec_take_option(opts, key) == (None::<String>, opts),
    decreases opts.len(),
{
    if opts.len() == 0 {
    } else {
        lemma_take_option_missing(opts.drop_first(), key);
        assert(seq![opts[0]] + opts.drop_first() =~= opts);
    }
}

proof fn lemma_take_option_at(opts: Seq<(String, String)>, key: Seq<char>, i: int)
    requires
        0 <= i < opts.len(),
        opts[i].0@ == key,
        forall|j: int| 0 <= j < i ==> (#[trigger] opts[j]).0@ != key,
    ensures
        spec_take_option(opts, key) == (Some(opts[i].1), opts.remove(i)),
    decreases i,
{
    if i == 0 {
        assert(opts.remove(0) =~= opts.drop_first());
    } else {
        lemma_take_option_at(opts.drop_first(), key, i - 1);
        assert(opts.drop_first()[i - 1] == opts[i]);
        assert(opts.remove(i) =~= seq![opts[0]] + opts.drop_first().remove(i - 1));
    }
}

/// Removes the option named `key` and hands back its value. A handler must
/// call this for every option it understands: whatever is left over fails
/// the render.
pub fn take_option(options: &mut Vec<(String, String)>, key: &str) -> (r: Option<String>)
    ensures
        r == spec_take_option(old(options)@, key@).0,
        final(options)@ == spec_take_option(old(options)@, key@).1,
{
    let mut i: usize = 0;
    while i < options.len()
        invariant
            options@ == old(options)@,
            i <= options@.len(),
            forall|j: int| 0 <= j < i ==> (#[trigger] options@[j]).0@ != key@,
        decreases options@.len() - i,
    {
        let hit = crate::utility::str_eq(options[i].0.as_str(), key);
        if hit {
            proof {
                lemma_take_option_at(options@, key@, i as int);
            }
            let pair = options.remove(i);
            return Some(pair.1);
        }
        i = i + 1;
    }
    proof {
        lemma_take_option_missing(options@, key@);
    }
    None
}

/// The mathematical image of one resolved item: its kind and its text.
pub enum ItemView {
    Static(Seq<char>),
    Color(Seq<char>),
    ColorReset(Seq<char>),
    Computed(Seq<char>),
}

/// One resolved item: the text a token produced, tagged with how it came to
/// be, which is what the squashing pass decides by.
#[derive(Debug, PartialEq)]
pub enum Component {
    Static(String),
    Color(String),
    ColorReset(String),
    Computed(String),
}

impl View for Component {
    type V = ItemView;

    open spec fn view(&self) -> ItemView {
        match self {
            Component::Static(s) => ItemView::Static(s@),
            Component::Color(s) => ItemView::Color(s@),
            Component::ColorReset(s) => ItemView::ColorReset(s@),
            Component::Computed(s) => ItemView::Computed(s@),
        }
    }
}

impl DeepView for Component {
    type V = ItemView;

    open spec fn deep_view(&self) -> ItemView {
        self.view()
    }
}

/// The text an item carries.
pub open spec fn spec_text(i: ItemView) -> Seq<char> {
    match i {
        ItemView::Static(s) => s,
        ItemView::Color(s) => s,
        ItemView::ColorReset(s) => s,
        ItemView::Computed(s) => s,
    }
}

impl Component {
    /// The text this item carries, whatever its kind.
    pub fn text(&self) -> (r: &str)
        ensures
            r@ == spec_text(self@),
    {
        match self {
            Component::Static(s) => s.as_str(),
            Component::Color(s) => s.as_str(),
            Component::ColorReset(s) => s.as_str(),
            Component::Computed(s) => s.as_str(),
        }
    }
}

/// The view of one optional resolved item.
pub open spec fn ov(c: Option<Component>) -> Option<ItemView> {
    match c {
        Some(x) => Some(x@),
        None => None,
    }
}

/// The views of a sequence of optional resolved items.
pub open spec fn dv(s: Seq<Option<Component>>) -> Seq<Option<ItemView>> {
    s.map_values(|c: Option<Component>| ov(c))
}

/// The views of a sequence of resolved items.
pub open spec fn dvc(s: Seq<Component>) -> Seq<ItemView> {
    s.map_values(|c: Component| c@)
}

/// A "turn color on" escape.
pub open spec fn is_color(c: Option<ItemView>) -> bool {
    c matches Some(ItemView::Color(_))
}

/// A "turn color off" escape.
pub open spec fn is_color_reset(c: Option<ItemView>) -> bool {
    c matches Some(ItemView::ColorReset(_))
}

/// Present and not a computed value: literal text or a color escape.
pub open spec fn is_decorative(c: Option<ItemView>) -> bool {
    match c {
        Some(i) => !(i is Computed),
        None => false,
    }
}

/// A successfully computed component value.
pub open spec fn is_computed(c: Option<ItemView>) -> bool {
    c matches Some(ItemView::Computed(_))
}

/// How the grouping pass proceeds: `cur` is the group being grown, `acc` the
/// groups already closed. A color escape closes a non-empty group before
/// opening a fresh one; a reset escape closes the group right after joining
/// it; everything else joins the current group. At the end of the input the
/// last group is closed, and kept only if it holds something, unless no
/// group was closed at all.
pub open spec fn spec_groups_rec(
    s: Seq<Option<ItemView>>,
    cur: Seq<Option<ItemView>>,
    acc: Seq<Seq<Option<ItemView>>>,
) -> Seq<Seq<Option<ItemView>>>
    decreases s.len(),
{
    if s.len() == 0 {
        if cur.len() > 0 || acc.len() == 0 {
            acc.push(cur)
        } else {
            acc
        }
    } else {
        let x = s[0];
        let rest = s.drop_first();
        if is_color(x) {
            if cur.len() == 0 {
                spec_groups_rec(rest, cur.push(x), acc)
            } else {
                spec_groups_rec(rest, seq![x], acc.push(cur))
            }
        } else if is_color_reset(x) {
            spec_groups_rec(rest, Seq::empty(), acc.push(cur.push(x)))
        } else {
            spec_groups_rec(rest, cur.push(x), acc)
        }
    }
}

/// The groups the squashing pass partitions a resolved sequence into.
pub open spec fn spec_groups(s: Seq<Option<ItemView>>) -> Seq<Seq<Option<ItemView>>> {
    spec_groups_rec(s, Seq::empty(), Seq::empty())
}

/// A group is kept iff it is purely decorative or holds at least one
/// computed value.
pub open spec fn keep_group(g: Seq<Option<ItemView>>) -> bool {
    (forall|i: int| 0 <= i < g.len() ==> is_decorative(g[i])) || (exists|i: int|
        0 <= i < g.len() && is_computed(g[i]))
}

/// The present items of a group, in order, with the absent ones elided.
pub open spec fn present(g: Seq<Option<ItemView>>) -> Seq<ItemView>
    decreases g.len(),
{
    if g.len() == 0 {
        Seq::empty()
    } else {
        match g[0] {
            Some(x) => seq![x] + present(g.drop_first()),
            None => present(g.drop_first()),
        }
    }
}

/// The concatenation of a sequence of groups.
pub open spec fn concat_groups(gs: Seq<Seq<Option<ItemView>>>) -> Seq<Option<ItemView>>
    decreases gs.len(),
{
    if gs.len() == 0 {
        Seq::empty()
    } else {
        gs[0] + concat_groups(gs.drop_first())
    }
}

/// What squashing leaves of a sequence of groups: kept groups, minus their
/// absent entries, in order.
pub open spec fn squash_groups(gs: Seq<Seq<Option<ItemView>>>) -> Seq<ItemView>
    decreases gs.len(),
{
    if gs.len() == 0 {
        Seq::empty()
    } else {
        (if keep_group(gs[0]) {
            present(gs[0])
        } else {
            Seq::empty()
        }) + squash_groups(gs.drop_first())
    }
}

/// What squashing leaves of a resolved sequence.
pub open spec fn spec_squash(s: Seq<Option<ItemView>>) -> Seq<ItemView> {
    squash_groups(spec_groups(s))
}

proof fn lemma_concat_groups_push(gs: Seq<Seq<Option<ItemView>>>, g: Seq<Option<ItemView>>)
    ensures
        concat_groups(gs.push(g)) == concat_groups(gs) + g,
    decreases gs.len(),
{
    assert(gs.push(g)[0] == if gs.len() == 0 {
        g
    } else {
        gs[0]
    });
    if gs.len() == 0 {
        assert(gs.push(g).drop_first() =~= Seq::<Seq<Option<ItemView>>>::empty());
        assert(concat_groups(gs.push(g)) == g + concat_groups(Seq::<Seq<Option<ItemView>>>::empty()));
        assert(concat_groups(gs.push(g)) =~= concat_groups(gs) + g);
    } else {
        assert(gs.push(g).drop_first() =~= gs.drop_first().push(g));
        lemma_concat_groups_push(gs.drop_first(), g);
        assert(concat_groups(gs.push(g)) == gs[0] + concat_groups(gs.drop_first().push(g)));
        assert(concat_groups(gs.push(g)) =~= concat_groups(gs) + g);
    }
}

proof fn lemma_groups_rec_partition(
    s: Seq<Option<ItemView>>,
    cur: Seq<Option<ItemView>>,
    acc: Seq<Seq<Option<ItemView>>>,
)
    ensures
        concat_groups(spec_groups_rec(s, cur, acc)) == concat_groups(acc) + cur + s,
    decreases s.len(),
{
    if s.len() == 0 {
        if cur.len() > 0 || acc.len() == 0 {
            lemma_concat_groups_push(acc, cur);
        }
        assert(concat_groups(spec_groups_rec(s, cur, acc)) =~= concat_groups(acc) + cur + s);
    } else {
        let x = s[0];
        let rest = s.drop_first();
        if is_color(x) {
            if cur.len() == 0 {
                lemma_groups_rec_partition(rest, cur.push(x), acc);
            } else {
                lemma_groups_rec_partition(rest, seq![x], acc.push(cur));
                lemma_concat_groups_push(acc, cur);
            }
        } else if is_color_reset(x) {
            lemma_groups_rec_partition(rest, Seq::empty(), acc.push(cur.push(x)));
            lemma_concat_groups_push(acc, cur.push(x));
        } else {
            lemma_groups_rec_partition(rest, cur.push(x), acc);
        }
        assert(concat_groups(spec_groups_rec(s, cur, acc)) =~= concat_groups(acc) + cur + s);
    }
}

/// Grouping partitions the input exactly: concatenating the groups, before
/// any filtering, reproduces the original sequence.
pub proof fn lemma_groups_partition(s: Seq<Option<ItemView>>)
    ensures
        concat_groups(spec_groups(s)) == s,
{
    lemma_groups_rec_partition(s, Seq::empty(), Seq::empty());
    assert(concat_groups(spec_groups(s)) =~= s);
}

/// No item of the sequence is absent.
pub open spec fn all_present(s: Seq<Option<ItemView>>) -> bool {
    forall|i: int| 0 <= i < s.len() ==> s[i] is Some
}

/// Each item wrapped back into "present".
pub open spec fn opts_of(t: Seq<ItemView>) -> Seq<Option<ItemView>> {
    t.map_values(|i: ItemView| Some(i))
}

proof fn lemma_present_add(a: Seq<Option<ItemView>>, b: Seq<Option<ItemView>>)
    ensures
        present(a + b) == present(a) + present(b),
    decreases a.len(),
{
    if a.len() == 0 {
        assert(a + b =~= b);
        assert(present(a) + present(b) =~= present(b));
    } else {
        assert((a + b)[0] == a[0]);
        assert((a + b).drop_first() =~= a.drop_first() + b);
        lemma_present_add(a.drop_first(), b);
        assert(present(a + b) =~= present(a) + present(b));
    }
}

proof fn lemma_groups_rec_all_present(
    s: Seq<Option<ItemView>>,
    cur: Seq<Option<ItemView>>,
    acc: Seq<Seq<Option<ItemView>>>,
)
    requires
        all_present(s),
        all_present(cur),
        forall|k: int| 0 <= k < acc.len() ==> all_present(#[trigger] acc[k]),
    ensures
        forall|k: int|
            0 <= k < spec_groups_rec(s, cur, acc).len() ==> all_present(
                #[trigger] spec_groups_rec(s, cur, acc)[k],
            ),
    decreases s.len(),
{
    if s.len() == 0 {
        if cur.len() > 0 || acc.len() == 0 {
            assert(spec_groups_rec(s, cur, acc) == acc.push(cur));
            assert forall|k: int| 0 <= k < acc.push(cur).len() implies all_present(
                #[trigger] acc.push(cur)[k],
            ) by {
                if k < acc.len() {
                    assert(acc.push(cur)[k] == acc[k]);
                } else {
                    assert(acc.push(cur)[k] == cur);
                }
            }
        } else {
            assert(spec_groups_rec(s, cur, acc) == acc);
        }
    } else {
        let x = s[0];
        let rest = s.drop_first();
        assert(all_present(rest));
        assert forall|k: int| 0 <= k < acc.push(cur).len() implies all_present(
            #[trigger] acc.push(cur)[k],
        ) by {
            if k < acc.len() {
                assert(acc.push(cur)[k] == acc[k]);
            } else {
                assert(acc.push(cur)[k] == cur);
            }
        }
        assert forall|k: int| 0 <= k < acc.push(cur.push(x)).len() implies all_present(
            #[trigger] acc.push(cur.push(x))[k],
        ) by {
            if k < acc.len() {
                assert(acc.push(cur.push(x))[k] == acc[k]);
            } else {
                assert(acc.push(cur.push(x))[k] == cur.push(x));
                assert(all_present(cur.push(x)));
            }
        }
        if is_color(x) {
            if cur.len() == 0 {
                assert(all_present(cur.push(x)));
                lemma_groups_rec_all_present(rest, cur.push(x), acc);
                assert(spec_groups_rec(s, cur, acc) == spec_groups_rec(rest, cur.push(x), acc));
            } else {
                assert(all_present(seq![x]));
                lemma_groups_rec_all_present(rest, seq![x], acc.push(cur));
                assert(spec_groups_rec(s, cur, acc) == spec_groups_rec(
                    rest,
                    seq![x],
                    acc.push(cur),
                ));
            }
        } else if is_color_reset(x) {
            assert(all_present(cur.push(x)));
            lemma_groups_rec_all_present(rest, Seq::empty(), acc.push(cur.push(x)));
            assert(spec_groups_rec(s, cur, acc) == spec_groups_rec(
                rest,
                Seq::empty(),
                acc.push(cur.push(x)),
            ));
        } else {
            assert(all_present(cur.push(x)));
            lemma_groups_rec_all_present(rest, cur.push(x), acc);
            assert(spec_groups_rec(s, cur, acc) == spec_groups_rec(rest, cur.push(x), acc));
        }
    }
}

proof fn lemma_squash_groups_all_present(gs: Seq<Seq<Option<ItemView>>>)
    requires
        forall|k: int| 0 <= k < gs.len() ==> all_present(#[trigger] gs[k]),
    ensures
        squash_groups(gs) == present(concat_groups(gs)),
    decreases gs.len(),
{
    if gs.len() == 0 {
    } else {
        let g = gs[0];
        assert(all_present(g));
        if exists|i: int| 0 <= i < g.len() && is_computed(g[i]) {
            assert(keep_group(g));
        } else {
            assert(forall|i: int| 0 <= i < g.len() ==> is_decorative(g[i]));
            assert(keep_group(g));
        }
        lemma_squash_groups_all_present(gs.drop_first());
        lemma_present_add(g, concat_groups(gs.drop_first()));
    }
}

proof fn lemma_present_opts(t: Seq<ItemView>)
    ensures
        present(opts_of(t)) == t,
    decreases t.len(),
{
    if t.len() == 0 {
    } else {
        assert(opts_of(t)[0] == Some(t[0]));
        assert(opts_of(t).drop_first() =~= opts_of(t.drop_first()));
        lemma_present_opts(t.drop_first());
        assert(present(opts_of(t)) =~= t);
    }
}

/// Squashing a sequence with no absent items keeps every item: each of its
/// groups is either purely decorative or already holds a computed value.
pub proof fn lemma_squash_all_present(t: Seq<ItemView>)
    ensures
        spec_squash(opts_of(t)) == t,
{
    let u = opts_of(t);
    assert(all_present(u));
    lemma_groups_rec_all_present(u, Seq::empty(), Seq::empty());
    lemma_squash_groups_all_present(spec_groups(u));
    lemma_groups_partition(u);
    lemma_present_opts(t);
}

/// Squashing is idempotent: running the pass a second time over its own
/// output changes nothing, since no absent items remain and every surviving
/// group is kept again.
pub proof fn lemma_squash_idempotent(s: Seq<Option<ItemView>>)
    ensures
        spec_squash(opts_of(spec_squash(s))) == spec_squash(s),
{
    lemma_squash_all_present(spec_squash(s));
}

/// What resolving a token sequence can end in: the resolved items, an
/// invalid-options failure naming the leftover pairs, or a handler's own
/// error.
pub enum ResolveOut {
    Items(Seq<Option<ItemView>>),
    Invalid(Seq<(String, String)>),
    Fail(Error),
}

/// Whether an executable resolution result means what `o` says.
pub open spec fn resolve_out_matches(r: Result<Vec<Option<Component>>, Error>, o: ResolveOut) -> bool {
    match o {
        ResolveOut::Items(items) => r matches Ok(v) && dv(v@) == items,
        ResolveOut::Invalid(opts) => r matches Err(e) && (e matches Error::InvalidOptions(v) && v@
            == opts),
        ResolveOut::Fail(e0) => r matches Err(e) && e == e0,
    }
}

/// Prefixes already-resolved items onto an outcome; errors swallow them.
pub open spec fn resolve_prepend(pre: Seq<Option<ItemView>>, o: ResolveOut) -> ResolveOut {
    match o {
        ResolveOut::Items(items) => ResolveOut::Items(pre + items),
        _ => o,
    }
}

/// Whether a condition holds in a context.
pub open spec fn spec_condition(c: Condition, ctx: Context) -> bool {
    match c {
        Condition::LastCommandStatus => ctx.last_command_status == 0,
        Condition::EnvironmentVariable(name) => spec_env_lookup(ctx.env@, name@) is Some,
    }
}

/// A component's single resolved item once its options check out: its
/// value, or an absent slot.
pub open spec fn after_options(val: Option<Seq<char>>, remaining: Seq<(String, String)>) -> ResolveOut {
    if remaining.len() > 0 {
        ResolveOut::Invalid(remaining)
    } else {
        ResolveOut::Items(
            seq![
                match val {
                    Some(v) => Some(ItemView::Computed(v)),
                    None => None,
                },
            ],
        )
    }
}

/// What each named component resolves to, and what becomes of its options.
pub open spec fn spec_resolve_component(
    name: token::Component,
    opts: Seq<(String, String)>,
    ctx: Context,
) -> ResolveOut {
    match name {
        token::Component::Cwd => {
            let ex = cwd::spec_extract(opts);
            match ex.0 {
                Err(e) => ResolveOut::Fail(e),
                Ok(style) => after_options(Some(cwd::spec_cwd_text(ctx, style)), ex.1),
            }
        },
        token::Component::Env => {
            let t = spec_take_option(opts, "name"@);
            match t.0 {
                None => ResolveOut::Fail(Error::MissingEnvName),
                Some(n) => after_options(spec_env_lookup(ctx.env@, n@), t.1),
            }
        },
        token::Component::GitBranch => after_options(
            match ctx.git_branch {
                Some(b) => Some(b@),
                None => None,
            },
            opts,
        ),
        token::Component::GitCommit => after_options(
            match ctx.git_commit {
                Some(h) => Some(git_commit::spec_short_commit(h@)),
                None => None,
            },
            opts,
        ),
        token::Component::GitStash => after_options(
            match ctx.git_stash_count {
                Some(c) => if c == 0 {
                    None
                } else {
                    Some(spec_decimal(c as nat) + "+"@)
                },
                None => None,
            },
            opts,
        ),
        token::Component::GitStatus => after_options(
            match ctx.git_status {
                Some(f) => if f.wt_modified || f.wt_new || f.wt_deleted || f.index_changed {
                    Some(git_status::spec_status_text(f))
                } else {
                    None
                },
                None => None,
            },
            opts,
        ),
        token::Component::Hostname => after_options(
            match ctx.hostname {
                Some(h) => Some(h@),
                None => None,
            },
            opts,
        ),
        token::Component::Jobs => after_options(
            match ctx.backgrounded_jobs {
                Some(j) => if j@.len() > 0 {
                    Some(j@)
                } else {
                    None
                },
                None => None,
            },
            opts,
        ),
        token::Component::User => after_options(
            match ctx.user {
                Some(u) => Some(u@),
                None => None,
            },
            opts,
        ),
    }
}

/// What one token resolves to.
pub open spec fn spec_resolve_one(t: Token, ctx: Context) -> ResolveOut
    decreases t,
{
    match t {
        Token::Static(s) => ResolveOut::Items(seq![Some(ItemView::Static(s@))]),
        Token::Color(st) => ResolveOut::Items(
            seq![Some(ItemView::Color(spec_wrap(ctx.shell, fg_escape(st))))],
        ),
        Token::Reset => ResolveOut::Items(
            seq![Some(ItemView::ColorReset(spec_wrap(ctx.shell, "\u{1b}[0m"@)))],
        ),
        Token::Component { name, options } => spec_resolve_component(name, options@, ctx),
        Token::Conditional { condition, left, right } => if spec_condition(condition, ctx) {
            spec_resolve(left@, ctx)
        } else {
            match right {
                Some(r) => spec_resolve(r@, ctx),
                None => ResolveOut::Items(Seq::empty()),
            }
        },
    }
}

/// What a token sequence resolves to: each token's items in order, spliced
/// flat, stopping at the first error.
pub open spec fn spec_resolve(ts: Seq<Token>, ctx: Context) -> ResolveOut
    decreases ts,
{
    if ts.len() == 0 {
        ResolveOut::Items(Seq::empty())
    } else {
        match spec_resolve_one(ts[0], ctx) {
            ResolveOut::Items(items) => resolve_prepend(items, spec_resolve(ts.drop_first(), ctx)),
            e => e,
        }
    }
}

proof fn lemma_prepend_empty(o: ResolveOut)
    ensures
        resolve_prepend(Seq::empty(), o) == o,
{
    match o {
        ResolveOut::Items(items) => {
            assert(Seq::empty() + items =~= items);
        },
        _ => {},
    }
}

proof fn lemma_prepend_push(pre: Seq<Option<ItemView>>, x: Option<ItemView>, o: ResolveOut)
    ensures
        resolve_prepend(pre.push(x), o) == resolve_prepend(pre, resolve_prepend(seq![x], o)),
{
    match o {
        ResolveOut::Items(items) => {
            assert(pre.push(x) + items =~= pre + (seq![x] + items));
        },
        _ => {},
    }
}

proof fn lemma_prepend_concat(pre: Seq<Option<ItemView>>, mid: Seq<Option<ItemView>>, o: ResolveOut)
    ensures
        resolve_prepend(pre + mid, o) == resolve_prepend(pre, resolve_prepend(mid, o)),
{
    match o {
        ResolveOut::Items(items) => {
            assert((pre + mid) + items =~= pre + (mid + items));
        },
        _ => {},
    }
}

/// Resolves every token in order against the context: literal text and
/// escapes directly, components through their handlers with the shared
/// option check, conditionals by resolving the branch their condition
/// picks and splicing its items flat into the output.
#[verifier::loop_isolation(false)]
pub fn components_from_tokens(tokens: Vec<Token>, context: &Context) -> (r: Result<
    Vec<Option<Component>>,
    Error,
>)
    ensures
        resolve_out_matches(r, spec_resolve(tokens@, *context)),
    decreases tokens@,
{
    let ghost orig = tokens@;
    let mut rem = tokens;
    let mut acc: Vec<Option<Component>> = Vec::new();
    proof {
        assert(dv(acc@) =~= Seq::<Option<ItemView>>::empty());
        lemma_prepend_empty(spec_resolve(rem@, *context));
    }
    while rem.len() > 0
        invariant
            resolve_prepend(dv(acc@), spec_resolve(rem@, *context)) == spec_resolve(
                orig,
                *context,
            ),
            rem@ == orig || decreases_to!(orig => rem@),
        decreases rem@.len(),
    {
        let ghost old_rem = rem@;
        let ghost old_acc = dv(acc@);
        let t = rem.remove(0);
        proof {
            assert(t == old_rem[0]);
            assert(rem@ =~= old_rem.drop_first());
            vstd::seq::axiom_seq_len_decreases(old_rem, rem@);
            assert(decreases_to!(old_rem => t));
        }
        match t {
            Token::Static(s) => {
                let ghost x = Some(ItemView::Static(s@));
                proof {
                    assert(spec_resolve_one(old_rem[0], *context) == ResolveOut::Items(seq![x]));
                }
                acc.push(Some(Component::Static(s)));
                proof {
                    assert(dv(acc@) =~= old_acc.push(x));
                    lemma_prepend_push(old_acc, x, spec_resolve(rem@, *context));
                }
            },
            Token::Color(st) => {
                let text = crate::style::color_start(&st, &context.shell);
                let ghost x = Some(ItemView::Color(text@));
                proof {
                    assert(spec_resolve_one(old_rem[0], *context) == ResolveOut::Items(seq![x]));
                }
                acc.push(Some(Component::Color(text)));
                proof {
                    assert(dv(acc@) =~= old_acc.push(x));
                    lemma_prepend_push(old_acc, x, spec_resolve(rem@, *context));
                }
            },
            Token::Reset => {
                let text = crate::style::color_reset(&context.shell);
                let ghost x = Some(ItemView::ColorReset(text@));
                proof {
                    assert(spec_resolve_one(old_rem[0], *context) == ResolveOut::Items(seq![x]));
                }
                acc.push(Some(Component::ColorReset(text)));
                proof {
                    assert(dv(acc@) =~= old_acc.push(x));
                    lemma_prepend_push(old_acc, x, spec_resolve(rem@, *context));
                }
            },
            Token::Component { name, mut options } => {
                let ghost opts0 = options@;
                let c: Option<String> = match name {
                    token::Component::GitBranch => git_branch::display(context),
                    token::Component::GitCommit => git_commit::display(context),
                    token::Component::GitStash => git_stash::display(context),
                    token::Component::GitStatus => git_status::display(context),
                    token::Component::Hostname => hostname::display(context),
                    token::Component::Jobs => jobs::display(
                        match &context.backgrounded_jobs {
                            Some(j) => Some(j.as_str()),
                            None => None,
                        },
                    ),
                    token::Component::User => user::display(context),
                    token::Component::Cwd => match cwd::display(context, &mut options) {
                        Ok(v) => v,
                        Err(e) => {
                            proof {
                                assert(spec_resolve_one(old_rem[0], *context)
                                    == ResolveOut::Fail(e));
                                assert(spec_resolve(old_rem, *context) == ResolveOut::Fail(e));
                                assert(resolve_out_matches(
                                    Err::<Vec<Option<Component>>, Error>(e),
                                    spec_resolve(orig, *context),
                                ));
                            }
                            return Err(e);
                        },
                    },
                    token::Component::Env => match env::display(context, &mut options) {
                        Ok(v) => v,
                        Err(e) => {
                            proof {
                                assert(spec_resolve_one(old_rem[0], *context)
                                    == ResolveOut::Fail(e));
                                assert(spec_resolve(old_rem, *context) == ResolveOut::Fail(e));
                                assert(resolve_out_matches(
                                    Err::<Vec<Option<Component>>, Error>(e),
                                    spec_resolve(orig, *context),
                                ));
                            }
                            return Err(e);
                        },
                    },
                };
                if options.len() > 0 {
                    proof {
                        assert(spec_resolve_one(old_rem[0], *context) == ResolveOut::Invalid(
                            options@,
                        ));
                        assert(spec_resolve(old_rem, *context) == ResolveOut::Invalid(options@));
                        assert(resolve_out_matches(
                            Err::<Vec<Option<Component>>, Error>(Error::InvalidOptions(options)),
                            spec_resolve(orig, *context),
                        ));
                    }
                    return Err(Error::InvalidOptions(options));
                }
                let item = match c {
                    Some(s) => Some(Component::Computed(s)),
                    None => None,
                };
                let ghost x = ov(item);
                proof {
                    assert(spec_resolve_one(old_rem[0], *context) == ResolveOut::Items(seq![x]));
                }
                acc.push(item);
                proof {
                    assert(dv(acc@) =~= old_acc.push(x));
                    lemma_prepend_push(old_acc, x, spec_resolve(rem@, *context));
                }
            },
            Token::Conditional { condition, left, right } => {
                let truth = match &condition {
                    Condition::LastCommandStatus => context.last_command_status == 0,
                    Condition::EnvironmentVariable(name) => context.env_var(
                        name.as_str(),
                    ).is_some(),
                };
                proof {
                    assert(truth == spec_condition(condition, *context));
                }
                let sub: Result<Vec<Option<Component>>, Error> = if truth {
                    proof {
                        assert(decreases_to!(t => left));
                    }
                    components_from_tokens(left, context)
                } else {
                    match right {
                        Some(rv) => {
                            proof {
                                assert(decreases_to!(t => rv));
                            }
                            components_from_tokens(rv, context)
                        },
                        None => Ok(Vec::new()),
                    }
                };
                match sub {
                    Ok(mut items) => {
                        let ghost mid = dv(items@);
                        proof {
                            assert(spec_resolve_one(old_rem[0], *context) == ResolveOut::Items(
                                mid,
                            ));
                        }
                        acc.append(&mut items);
                        proof {
                            assert(dv(acc@) =~= old_acc + mid);
                            lemma_prepend_concat(old_acc, mid, spec_resolve(rem@, *context));
                        }
                    },
                    Err(e) => {
                        proof {
                            assert(resolve_out_matches(
                                Err::<Vec<Option<Component>>, Error>(e),
                                spec_resolve_one(old_rem[0], *context),
                            ));
                        }
                        return Err(e);
                    },
                }
            },
        }
    }
    proof {
        assert(spec_resolve(rem@, *context) == ResolveOut::Items(Seq::empty()));
        assert(dv(acc@) + Seq::<Option<ItemView>>::empty() =~= dv(acc@));
    }
    Ok(acc)
}

/// The views of a sequence of groups.
pub open spec fn gviews(gs: Seq<Vec<Option<Component>>>) -> Seq<Seq<Option<ItemView>>> {
    gs.map_values(|v: Vec<Option<Component>>| dv(v@))
}

/// Splits the resolved items into groups: a color escape opens a new group
/// (closing a non-empty one first), a reset escape closes the group it ends,
/// and everything else extends the current group.
pub fn into_groups(components: Vec<Option<Component>>) -> (groups: Vec<Vec<Option<Component>>>)
    ensures
        gviews(groups@) == spec_groups(dv(components@)),
{
    let ghost orig = dv(components@);
    let mut rest = components;
    let mut groups: Vec<Vec<Option<Component>>> = Vec::new();
    let mut cur: Vec<Option<Component>> = Vec::new();
    proof {
        assert(gviews(groups@) =~= Seq::<Seq<Option<ItemView>>>::empty());
        assert(dv(cur@) =~= Seq::<Option<ItemView>>::empty());
    }
    while rest.len() > 0
        invariant
            spec_groups_rec(dv(rest@), dv(cur@), gviews(groups@)) == spec_groups(orig),
        decreases rest.len(),
    {
        let ghost old_rest = dv(rest@);
        let ghost old_cur = dv(cur@);
        let ghost old_groups = gviews(groups@);
        let c = rest.remove(0);
        proof {
            assert(old_rest[0] == ov(c));
            assert(dv(rest@) =~= old_rest.drop_first());
        }
        match &c {
            Some(Component::Color(_)) => {
                if cur.len() > 0 {
                    let full = cur;
                    cur = Vec::new();
                    groups.push(full);
                    proof {
                        assert(gviews(groups@) =~~= old_groups.push(old_cur));
                        assert(dv(cur@) =~= Seq::<Option<ItemView>>::empty());
                    }
                }
                let ghost mid_cur = dv(cur@);
                cur.push(c);
                proof {
                    assert(dv(cur@) =~= mid_cur.push(ov(c)));
                    if old_cur.len() == 0 {
                        assert(dv(cur@) =~= old_cur.push(old_rest[0]));
                    } else {
                        assert(dv(cur@) =~= seq![old_rest[0]]);
                    }
                }
            },
            Some(Component::ColorReset(_)) => {
                cur.push(c);
                let full = cur;
                cur = Vec::new();
                groups.push(full);
                proof {
                    assert(gviews(groups@) =~~= old_groups.push(old_cur.push(ov(c))));
                    assert(dv(cur@) =~= Seq::<Option<ItemView>>::empty());
                }
            },
            _ => {
                cur.push(c);
                proof {
                    assert(!is_color(ov(c)) && !is_color_reset(ov(c)));
                    assert(dv(cur@) =~= old_cur.push(ov(c)));
                }
            },
        }
        proof {
            assert(spec_groups_rec(old_rest, old_cur, old_groups) == spec_groups_rec(
                dv(rest@),
                dv(cur@),
                gviews(groups@),
            ));
        }
    }
    if cur.len() > 0 || groups.len() == 0 {
        let ghost old_groups = gviews(groups@);
        let ghost old_cur = dv(cur@);
        groups.push(cur);
        proof {
            assert(dv(Seq::<Option<Component>>::empty()) =~= Seq::<Option<ItemView>>::empty());
            assert(gviews(groups@) =~~= old_groups.push(old_cur));
        }
    }
    groups
}

/// Decides whether a group survives: it must be purely decorative, or hold
/// at least one computed value.
pub fn should_keep_group(group: &[Option<Component>]) -> (r: bool)
    ensures
        r == keep_group(dv(group@)),
{
    let mut decorative: bool = true;
    let mut computed: bool = false;
    let mut i: usize = 0;
    while i < group.len()
        invariant
            i <= group@.len(),
            decorative == forall|j: int| 0 <= j < i ==> is_decorative(dv(group@)[j]),
            computed == exists|j: int| 0 <= j < i && is_computed(dv(group@)[j]),
        decreases group@.len() - i,
    {
        let c = vstd::slice::slice_index_get(group, i);
        proof {
            assert(dv(group@)[i as int] == ov(group@[i as int]));
        }
        match c {
            Some(Component::Computed(_)) => {
                decorative = false;
                computed = true;
                proof {
                    assert(is_computed(dv(group@)[i as int]));
                }
            },
            Some(_) => {
                proof {
                    assert(is_decorative(dv(group@)[i as int]));
                }
            },
            None => {
                decorative = false;
                proof {
                    assert(!is_decorative(dv(group@)[i as int]));
                }
            },
        }
        i = i + 1;
    }
    decorative || computed
}

/// Flattens the groups back into one sequence: kept groups survive with
/// their absent entries removed, dropped groups disappear wholesale.
pub fn squash(components: Vec<Option<Component>>) -> (r: Vec<Component>)
    ensures
        dvc(r@) == spec_squash(dv(components@)),
{
    let ghost orig = dv(components@);
    let mut groups = into_groups(components);
    let mut out: Vec<Component> = Vec::new();
    proof {
        assert(dvc(out@) =~= Seq::<ItemView>::empty());
        assert(dvc(out@) + squash_groups(gviews(groups@)) =~= spec_squash(orig));
    }
    while groups.len() > 0
        invariant
            dvc(out@) + squash_groups(gviews(groups@)) == spec_squash(orig),
        decreases groups.len(),
    {
        let ghost old_groups = gviews(groups@);
        let mut g = groups.remove(0);
        let ghost gview = dv(g@);
        proof {
            assert(old_groups[0] == gview);
            assert(gviews(groups@) =~= old_groups.drop_first());
        }
        if should_keep_group(g.as_slice()) {
            while g.len() > 0
                invariant
                    dvc(out@) + present(dv(g@)) + squash_groups(gviews(groups@)) == spec_squash(
                        orig,
                    ),
                decreases g.len(),
            {
                let ghost old_g = dv(g@);
                let ghost old_out = dvc(out@);
                let c = g.remove(0);
                proof {
                    assert(old_g[0] == ov(c));
                    assert(dv(g@) =~= old_g.drop_first());
                }
                match c {
                    Some(x) => {
                        proof {
                            assert(present(old_g) == seq![x@] + present(old_g.drop_first()));
                        }
                        out.push(x);
                        proof {
                            assert(dvc(out@) =~= old_out.push(x@));
                            assert(dvc(out@) + present(dv(g@)) =~= old_out + present(old_g));
                        }
                    },
                    None => {
                        proof {
                            assert(present(old_g) == present(old_g.drop_first()));
                        }
                    },
                }
            }
            proof {
                assert(present(dv(g@)) =~= Seq::<ItemView>::empty());
                assert(dvc(out@) + squash_groups(gviews(groups@)) =~= spec_squash(orig));
            }
        } else {
            proof {
                assert(squash_groups(old_groups) == squash_groups(old_groups.drop_first()));
            }
        }
    }
    proof {
        assert(squash_groups(gviews(groups@)) =~= Seq::<ItemView>::empty());
        assert(dvc(out@) =~= spec_squash(orig));
    }
    out
}

/// The text each item renders to, in order.
pub open spec fn texts_of(items: Seq<ItemView>) -> Seq<Seq<char>> {
    items.map_values(|i: ItemView| spec_text(i))
}

/// The whole resolution pipeline after parsing: resolve every token, squash
/// the result, and render each surviving item to its text.
pub fn components(tokens: Vec<Token>, context: &Context) -> (r: Result<Vec<String>, Error>)
    ensures
        match spec_resolve(tokens@, *context) {
            ResolveOut::Items(items) => r matches Ok(v) && strs_view(v@) == texts_of(
                spec_squash(items),
            ),
            ResolveOut::Invalid(opts) => r matches Err(e) && (e matches Error::InvalidOptions(v)
                && v@ == opts),
            ResolveOut::Fail(e0) => r matches Err(e) && e == e0,
        },
{
    let ghost outcome = spec_resolve(tokens@, *context);
    let resolved = match components_from_tokens(tokens, context) {
        Ok(v) => v,
        Err(e) => {
            return Err(e);
        },
    };
    let squashed = squash(resolved);
    let ghost final_items = dvc(squashed@);
    let mut out: Vec<String> = Vec::new();
    let mut i: usize = 0;
    proof {
        assert(strs_view(out@) =~= texts_of(final_items).subrange(0, 0));
    }
    while i < squashed.len()
        invariant
            i <= squashed@.len(),
            final_items == dvc(squashed@),
            strs_view(out@) == texts_of(final_items).subrange(0, i as int),
        decreases squashed@.len() - i,
    {
        let ghost pre = strs_view(out@);
        let piece = String::from_str(squashed[i].text());
        proof {
            assert(texts_of(final_items)[i as int] == spec_text(squashed@[i as int]@));
        }
        out.push(piece);
        proof {
            assert(strs_view(out@) =~= pre.push(spec_text(squashed@[i as int]@)));
            assert(strs_view(out@) =~= texts_of(final_items).subrange(0, i as int + 1));
        }
        i = i + 1;
    }
    proof {
        assert(texts_of(final_items).subrange(0, squashed@.len() as int) =~= texts_of(
            final_items,
        ));
    }
    Ok(out)
}

} // verus!
