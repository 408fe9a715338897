//! Tokens are parsed from the user's provided configuration.

use vstd::prelude::*;

verus! {

/// One of the fixed, closed list of color names a template may use.
#[derive(Debug, Clone, Copy, PartialEq, Eq, Structural)]
pub enum StyleToken {
    Black,
    DarkGrey,
    Red,
    DarkRed,
    Green,
    DarkGreen,
    Yellow,
    DarkYellow,
    Blue,
    DarkBlue,
    Magenta,
    DarkMagenta,
    Cyan,
    DarkCyan,
    White,
    Grey,
}

/// The condition of a conditional block.
#[derive(Debug, PartialEq)]
pub enum Condition {
    LastCommandStatus,
    EnvironmentVariable(String),
}

impl Condition {
    /// The condition a bare identifier names, if any.
    pub fn from_name(value: &str) -> (r: Option<Condition>)
        ensures
            value@ == "last_command_status"@ ==> (r matches Some(c) && c is LastCommandStatus),
            value@ != "last_command_status"@ ==> r is None,
    {
        if crate::utility::str_eq(value, "last_command_status") {
            Some(Condition::LastCommandStatus)
        } else {
            None
        }
    }
}

/// The name of a component a template may invoke.
#[derive(Debug, Clone, Copy, PartialEq, Eq, Structural)]
pub enum Component {
    Cwd,
    Env,
    GitBranch,
    GitCommit,
    GitStash,
    GitStatus,
    Hostname,
    Jobs,
    User,
}

/// The component each identifier names.
pub open spec fn spec_component_of(s: Seq<char>) -> Option<Component> {
    if s == "cwd"@ {
        Some(Component::Cwd)
    } else if s == "env"@ {
        Some(Component::Env)
    } else if s == "git_branch"@ {
        Some(Component::GitBranch)
    } else if s == "git_commit"@ {
        Some(Component::GitCommit)
    } else if s == "git_stash"@ {
        Some(Component::GitStash)
    } else if s == "git_status"@ {
        Some(Component::GitStatus)
    } else if s == "hostname"@ {
        Some(Component::Hostname)
    } else if s == "jobs"@ {
        Some(Component::Jobs)
    } else if s == "user"@ {
        Some(Component::User)
    } else {
        None
    }
}

impl Component {
    /// The component an identifier names, if any.
    pub fn from_name(value: &str) -> (r: Option<Component>)
        ensures
            r == spec_component_of(value@),
    {
        if crate::utility::str_eq(value, "cwd") {
            Some(Component::Cwd)
        } else if crate::utility::str_eq(value, "env") {
            Some(Component::Env)
        } else if crate::utility::str_eq(value, "git_branch") {
            Some(Component::GitBranch)
        } else if crate::utility::str_eq(value, "git_commit") {
            Some(Component::GitCommit)
        } else if crate::utility::str_eq(value, "git_stash") {
            Some(Component::GitStash)
        } else if crate::utility::str_eq(value, "git_status") {
            Some(Component::GitStatus)
        } else if crate::utility::str_eq(value, "hostname") {
            Some(Component::Hostname)
        } else if crate::utility::str_eq(value, "jobs") {
            Some(Component::Jobs)
        } else if crate::utility::str_eq(value, "user") {
            Some(Component::User)
        } else {
            None
        }
    }
}

/// One parsed unit of the template.
#[derive(Debug, PartialEq)]
pub enum Token {
    Component { name: Component, options: Vec<(String, String)> },
    Static(String),
    Color(StyleToken),
    Reset,
    Conditional { condition: Condition, left: Vec<Token>, right: Option<Vec<Token>> },
}

/// The mathematical image of a condition: names as character sequences.
pub enum ConditionView {
    LastCommandStatus,
    EnvironmentVariable(Seq<char>),
}

/// The mathematical image of a token: all text as character sequences.
/// The reference parse is stated over these.
pub enum TokenView {
    Component { name: Component, options: Seq<(Seq<char>, Seq<char>)> },
    Static(Seq<char>),
    Color(StyleToken),
    Reset,
    Conditional { condition: ConditionView, left: Seq<TokenView>, right: Option<Seq<TokenView>> },
}

/// The images of a list of options.
pub open spec fn pairs_view(opts: Seq<(String, String)>) -> Seq<(Seq<char>, Seq<char>)> {
    opts.map_values(|p: (String, String)| (p.0@, p.1@))
}

/// The image of a condition.
pub open spec fn condition_view(c: Condition) -> ConditionView {
    match c {
        Condition::LastCommandStatus => ConditionView::LastCommandStatus,
        Condition::EnvironmentVariable(name) => ConditionView::EnvironmentVariable(name@),
    }
}

/// The image of a token.
pub open spec fn token_view(t: Token) -> TokenView
    decreases t,
{
    match t {
        Token::Static(s) => TokenView::Static(s@),
        Token::Color(st) => TokenView::Color(st),
        Token::Reset => TokenView::Reset,
        Token::Component { name, options } => TokenView::Component {
            name,
            options: pairs_view(options@),
        },
        Token::Conditional { condition, left, right } => TokenView::Conditional {
            condition: condition_view(condition),
            left: tokens_view(left@),
            right: match right {
                Some(r) => Some(tokens_view(r@)),
                None => None,
            },
        },
    }
}

/// The images of a token sequence.
pub open spec fn tokens_view(ts: Seq<Token>) -> Seq<TokenView>
    decreases ts,
{
    if ts.len() == 0 {
        Seq::empty()
    } else {
        seq![token_view(ts[0])] + tokens_view(ts.drop_first())
    }
}

/// A sequence and its image have the same length.
pub proof fn lemma_tokens_view_len(ts: Seq<Token>)
    ensures
        tokens_view(ts).len() == ts.len(),
    decreases ts.len(),
{
    if ts.len() > 0 {
        lemma_tokens_view_len(ts.drop_first());
    }
}

/// Unfolds `tokens_view` over a push.
pub proof fn lemma_tokens_view_push(ts: Seq<Token>, t: Token)
    ensures
        tokens_view(ts.push(t)) == tokens_view(ts).push(token_view(t)),
    decreases ts.len(),
{
    if ts.len() == 0 {
        assert(ts.push(t)[0] == t);
        assert(ts.push(t).drop_first() =~= Seq::<Token>::empty());
        assert(tokens_view(Seq::<Token>::empty()) == Seq::<TokenView>::empty());
        assert(tokens_view(ts.push(t)) =~= tokens_view(ts).push(token_view(t)));
    } else {
        assert(ts.push(t)[0] == ts[0]);
        assert(ts.push(t).drop_first() =~= ts.drop_first().push(t));
        lemma_tokens_view_push(ts.drop_first(), t);
        assert(tokens_view(ts.push(t)) =~= tokens_view(ts).push(token_view(t)));
    }
}

/// No two options share a key.
pub open spec fn unique_keys(opts: Seq<(String, String)>) -> bool {
    forall|i: int, j: int|
        0 <= i < j < opts.len() ==> (#[trigger] opts[i]).0@ != (#[trigger] opts[j]).0@
}

/// An option list as the parser produces it: keys unique, keys and values
/// never empty.
pub open spec fn wf_options(opts: Seq<(String, String)>) -> bool {
    unique_keys(opts) && forall|i: int|
        0 <= i < opts.len() ==> (#[trigger] opts[i]).0@.len() > 0 && opts[i].1@.len() > 0
}

/// A fully-formed token: literal text is never empty, option lists are
/// well formed, and a conditional's branches are non-empty fully-formed
/// token sequences in turn.
pub open spec fn wf_token(t: Token) -> bool
    decreases t,
{
    match t {
        Token::Static(s) => s@.len() > 0,
        Token::Color(_) => true,
        Token::Reset => true,
        Token::Component { name, options } => wf_options(options@),
        Token::Conditional { condition, left, right } => left@.len() > 0 && wf_tokens(left@)
            && (match right {
            Some(r) => r@.len() > 0 && wf_tokens(r@),
            None => true,
        }),
    }
}

/// Every token of the sequence is fully formed.
pub open spec fn wf_tokens(ts: Seq<Token>) -> bool
    decreases ts,
{
    forall|i: int| 0 <= i < ts.len() ==> wf_token(#[trigger] ts[i])
}

} // verus!
