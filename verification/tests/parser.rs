use aurora_prompt::error::Error;
use aurora_prompt::parser::{environment_variable_name, identifier, parse};
use aurora_prompt::token::{Component, Condition, StyleToken, Token};

#[test]
fn it_parses_a_component() {
    assert_eq!(
        parse(&"{cwd}").unwrap(),
        vec![Token::Component { name: Component::Cwd, options: Vec::new() }]
    );
}

#[test]
fn it_parses_a_component_and_static() {
    assert_eq!(
        parse(&"{cwd} $").unwrap(),
        vec![
            Token::Component { name: Component::Cwd, options: Vec::new() },
            Token::Static(" $".to_string())
        ]
    );
}

#[test]
fn it_parses_a_component_with_options() {
    let options = vec![("style".to_string(), "default".to_string())];
    assert_eq!(
        parse(&"{cwd style=default}").unwrap(),
        vec![Token::Component { name: Component::Cwd, options }]
    );

    let options = vec![("style".to_string(), "short".to_string())];
    assert_eq!(
        parse(&"{cwd style=short}").unwrap(),
        vec![Token::Component { name: Component::Cwd, options }]
    );

    let options = vec![("style".to_string(), "long".to_string())];
    assert_eq!(
        parse(&"{cwd style=long}").unwrap(),
        vec![Token::Component { name: Component::Cwd, options }]
    );
}

#[test]
fn it_parses_identifiers() {
    assert_eq!(identifier(&"cwd").unwrap(), "cwd".to_string());
    assert_eq!(identifier(&"git_branch").unwrap(), "git_branch".to_string());

    assert!(identifier(&"end").is_none());
}

#[test]
fn it_parses_static() {
    assert_eq!(parse(&"cwd").unwrap(), vec![Token::Static("cwd".to_string())]);
}

#[test]
fn it_allows_escaped_braces_as_static() {
    assert_eq!(
        parse(&"{{cwd").unwrap(),
        vec![Token::Static("{{".to_string()), Token::Static("cwd".to_string())]
    );

    assert_eq!(
        parse(&"{{cwd{cwd}").unwrap(),
        vec![
            Token::Static("{{".to_string()),
            Token::Static("cwd".to_string()),
            Token::Component { name: Component::Cwd, options: Vec::new() }
        ]
    );
}

#[test]
fn it_parses_components_and_options_with_spaces() {
    let options = vec![
        ("a".to_string(), "bc".to_string()),
        ("d".to_string(), "12".to_string()),
    ];

    assert_eq!(
        parse(&"{  git_branch a=bc   d=12  }  { git_commit }").unwrap(),
        vec![
            Token::Component { name: Component::GitBranch, options },
            Token::Static("  ".to_string()),
            Token::Component { name: Component::GitCommit, options: Vec::new() },
        ]
    );
}

#[test]
fn it_parses_options() {
    let options = vec![
        ("a".to_string(), "bc".to_string()),
        ("d".to_string(), "12".to_string()),
    ];

    assert_eq!(
        parse(&"{git_branch a=bc d=12}").unwrap(),
        vec![Token::Component { name: Component::GitBranch, options }]
    );
}

#[test]
fn it_parses_conditionals() {
    assert_eq!(
        parse(&"{if last_command_status}left{end}").unwrap(),
        vec![Token::Conditional {
            condition: Condition::LastCommandStatus,
            left: vec![Token::Static("left".to_string())],
            right: None,
        }]
    );
}

#[test]
fn it_parses_conditionals_with_else_branch() {
    assert_eq!(
        parse(&"{if last_command_status}left{else}right{end}").unwrap(),
        vec![Token::Conditional {
            condition: Condition::LastCommandStatus,
            left: vec![Token::Static("left".to_string())],
            right: Some(vec![Token::Static("right".to_string())]),
        }]
    );
}

#[test]
fn it_ensures_all_input_is_consumed() {
    assert!(parse(&"foo{git_branch bar=").is_err());
}

#[test]
fn it_parses_style_components() {
    assert_eq!(parse(&"{green}").unwrap(), vec![Token::Color(StyleToken::Green)]);
}

#[test]
fn it_parses_style_with_whitespace() {
    assert_eq!(parse(&"{  green  }").unwrap(), vec![Token::Color(StyleToken::Green)]);
}

#[test]
fn it_parses_environment_variable_names() {
    let subject = environment_variable_name;

    assert_eq!(subject(&"$TEST").unwrap(), ("".to_string(), "TEST".to_string()));
    assert_eq!(subject(&"$FOO_BAR").unwrap(), ("".to_string(), "FOO_BAR".to_string()));
    assert_eq!(subject(&"$FOO BAR").unwrap(), (" BAR".to_string(), "FOO".to_string()));
}

#[test]
fn it_parses_colors() {
    assert_eq!(parse(&"{grey}").unwrap(), vec![Token::Color(StyleToken::Grey)]);
    assert_eq!(parse(&"{dArk_grEy}").unwrap(), vec![Token::Color(StyleToken::DarkGrey)]);
    assert_eq!(parse(&"{White}").unwrap(), vec![Token::Color(StyleToken::White)]);
}

#[test]
fn it_parses_reset() {
    assert_eq!(parse(&"{reset}").unwrap(), vec![Token::Reset]);
}

#[test]
fn it_rejects_unknown_identifiers() {
    assert!(parse(&"{bogus}").is_err());
    assert!(parse(&"{if nonsense}x{end}").is_err());
    assert!(parse(&"{if last_command_status}x").is_err());
}

#[test]
fn it_rejects_empty_templates() {
    assert_eq!(parse(&"").unwrap_err(), Error::Parse(0));
}
