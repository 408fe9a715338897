use aurora_prompt::component::{components_from_tokens, into_groups, should_keep_group, squash, Component};
use aurora_prompt::context::Context;
use aurora_prompt::token::{self, Token};
use aurora_prompt::Shell;

#[test]
fn test_squash_keep_1() {
    let components = vec![
        // Group 1
        Some(Component::Static("a keep".to_string())),
        Some(Component::Computed("b keep".to_string())),
        // Group 2 (Squash)
        Some(Component::Color("red".to_string())),
        None,
        Some(Component::Static("c squash".to_string())),
        Some(Component::ColorReset("reset".to_string())),
        // Group 3
        Some(Component::Color("green".to_string())),
        Some(Component::Static("d keep".to_string())),
        // Group 4
        Some(Component::Color("blue".to_string())),
        Some(Component::Static("e keep".to_string())),
        Some(Component::Computed("f keep".to_string())),
    ];
    let expected = vec![
        // Group 1
        Component::Static("a keep".to_string()),
        Component::Computed("b keep".to_string()),
        // Group 3
        Component::Color("green".to_string()),
        Component::Static("d keep".to_string()),
        // Group 4
        Component::Color("blue".to_string()),
        Component::Static("e keep".to_string()),
        Component::Computed("f keep".to_string()),
    ];
    assert_eq!(squash(components), expected);
}

#[test]
fn test_squash_keep_empty_end() {
    let components = vec![
        // Group 1
        Some(Component::Static("a keep".to_string())),
        Some(Component::Computed("b keep".to_string())),
        // Group 2
        Some(Component::Color("blue".to_string())),
        Some(Component::Static("c squash".to_string())),
        None,
    ];
    let expected = vec![
        // Group 1
        Component::Static("a keep".to_string()),
        Component::Computed("b keep".to_string()),
    ];
    assert_eq!(squash(components), expected);
}

#[test]
fn test_filter_just_static() {
    let group = vec![Some(Component::Static("a keep".to_string()))];
    assert!(should_keep_group(&group));
}

#[test]
fn test_filter_just_static_ignores_color() {
    let group = vec![
        Some(Component::Color("green".to_string())),
        Some(Component::Static("a keep".to_string())),
        Some(Component::ColorReset("reset".to_string())),
    ];
    assert!(should_keep_group(&group));
}

#[test]
fn test_filter_static_and_cwd() {
    let group = vec![
        Some(Component::Static("a keep".to_string())),
        Some(Component::Computed("b keep".to_string())),
    ];
    assert!(should_keep_group(&group));
}

#[test]
fn test_filter_static_and_cwd_ignores_color() {
    let group = vec![
        Some(Component::Color("green".to_string())),
        Some(Component::Static("a keep".to_string())),
        Some(Component::Computed("b keep".to_string())),
        Some(Component::ColorReset("reset".to_string())),
    ];
    assert!(should_keep_group(&group));
}

#[test]
fn test_filter_static_and_empty() {
    let group = vec![Some(Component::Static("a keep".to_string())), None];
    assert!(!should_keep_group(&group));
}

#[test]
fn test_filter_static_and_empty_removes_colors() {
    let group = vec![
        Some(Component::Color("green".to_string())),
        Some(Component::Static("a keep".to_string())),
        None,
        Some(Component::ColorReset("reset".to_string())),
    ];
    assert!(!should_keep_group(&group));
}

#[test]
fn test_filter_static_cwd_and_empty() {
    let group = vec![
        Some(Component::Color("green".to_string())),
        Some(Component::Static("a keep".to_string())),
        Some(Component::Computed("b keep".to_string())),
        None,
        Some(Component::ColorReset("reset".to_string())),
    ];
    assert!(should_keep_group(&group));
}

#[test]
fn test_components_from_tokens() {
    let options = vec![("foo".to_string(), "bar".to_string())];

    let context = Context::new(Shell::Zsh, 0, None);
    let result = components_from_tokens(
        vec![Token::Component { name: token::Component::Jobs, options }],
        &context,
    );

    assert_eq!(result.unwrap_err().message(), "error: invalid options: foo=bar");
}

#[test]
fn test_into_groups_single_group() {
    let components = vec![
        Some(Component::Color("green".to_string())),
        Some(Component::Static("a".to_string())),
        Some(Component::Static("b".to_string())),
        None,
        Some(Component::ColorReset("reset".to_string())),
    ];

    let groups = into_groups(components);

    assert_eq!(
        groups,
        vec![vec![
            Some(Component::Color("green".to_string())),
            Some(Component::Static("a".to_string())),
            Some(Component::Static("b".to_string())),
            None,
            Some(Component::ColorReset("reset".to_string())),
        ]]
    );
}

#[test]
fn test_into_groups_two_groups() {
    let components = vec![
        Some(Component::Color("green".to_string())),
        Some(Component::Static("a".to_string())),
        Some(Component::Static("b".to_string())),
        None,
        Some(Component::ColorReset("reset".to_string())),
        Some(Component::Color("green".to_string())),
        Some(Component::Static("a".to_string())),
    ];

    let groups = into_groups(components);

    assert_eq!(
        groups,
        vec![
            vec![
                Some(Component::Color("green".to_string())),
                Some(Component::Static("a".to_string())),
                Some(Component::Static("b".to_string())),
                None,
                Some(Component::ColorReset("reset".to_string())),
            ],
            vec![
                Some(Component::Color("green".to_string())),
                Some(Component::Static("a".to_string())),
            ],
        ]
    );
}

#[test]
fn test_into_groups_two_groups_no_reset() {
    let components = vec![
        Some(Component::Color("green".to_string())),
        Some(Component::Static("a".to_string())),
        Some(Component::Static("b".to_string())),
        None,
        Some(Component::Color("green".to_string())),
        Some(Component::Static("a".to_string())),
    ];

    let groups = into_groups(components);

    assert_eq!(
        groups,
        vec![
            vec![
                Some(Component::Color("green".to_string())),
                Some(Component::Static("a".to_string())),
                Some(Component::Static("b".to_string())),
                None,
            ],
            vec![
                Some(Component::Color("green".to_string())),
                Some(Component::Static("a".to_string())),
            ],
        ]
    );
}

#[test]
fn test_into_groups_two_groups_no_color() {
    let components = vec![
        Some(Component::Static("a".to_string())),
        Some(Component::ColorReset("reset".to_string())),
        Some(Component::Static("b".to_string())),
    ];

    let groups = into_groups(components);

    assert_eq!(
        groups,
        vec![
            vec![
                Some(Component::Static("a".to_string())),
                Some(Component::ColorReset("reset".to_string())),
            ],
            vec![Some(Component::Static("b".to_string()))],
        ]
    );
}

#[test]
fn test_squash_suppresses_lone_absent_group() {
    let components = vec![
        Some(Component::Color("C".to_string())),
        None,
        Some(Component::ColorReset("R".to_string())),
    ];
    assert_eq!(squash(components), Vec::<Component>::new());
}

#[test]
fn test_squash_preserves_group_with_value() {
    let components = vec![
        Some(Component::Color("C".to_string())),
        Some(Component::Computed("main".to_string())),
        Some(Component::ColorReset("R".to_string())),
    ];
    let expected = vec![
        Component::Color("C".to_string()),
        Component::Computed("main".to_string()),
        Component::ColorReset("R".to_string()),
    ];
    assert_eq!(squash(components), expected);
}

#[test]
fn test_squash_keeps_decorative_group() {
    let components = vec![
        Some(Component::Color("C".to_string())),
        Some(Component::Static("/".to_string())),
        Some(Component::ColorReset("R".to_string())),
    ];
    let expected = vec![
        Component::Color("C".to_string()),
        Component::Static("/".to_string()),
        Component::ColorReset("R".to_string()),
    ];
    assert_eq!(squash(components), expected);
}

#[test]
fn test_squash_twice_is_squash_once() {
    let components = vec![
        Some(Component::Static("a".to_string())),
        Some(Component::Color("red".to_string())),
        None,
        Some(Component::ColorReset("reset".to_string())),
        Some(Component::Color("blue".to_string())),
        Some(Component::Computed("x".to_string())),
        None,
        Some(Component::ColorReset("reset".to_string())),
        Some(Component::Static("b".to_string())),
    ];
    let once = squash(components);
    let again = squash(once.iter().map(|c| Some(clone_item(c))).collect());
    assert_eq!(once, again);
}

fn clone_item(c: &Component) -> Component {
    match c {
        Component::Static(s) => Component::Static(s.clone()),
        Component::Color(s) => Component::Color(s.clone()),
        Component::ColorReset(s) => Component::ColorReset(s.clone()),
        Component::Computed(s) => Component::Computed(s.clone()),
    }
}
