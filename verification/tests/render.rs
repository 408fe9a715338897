use aurora_prompt::components;
use aurora_prompt::context::{Context, StatusFlags};
use aurora_prompt::error::Error;
use aurora_prompt::style::{color_reset, color_start};
use aurora_prompt::utility::wrap_no_change_cursor_position;
use aurora_prompt::token::StyleToken;
use aurora_prompt::Shell;

fn plain_context() -> Context {
    let mut context = Context::new(Shell::NoWrap, 0, None);
    context.current_dir = "/home/alice/proj".to_string();
    context.home_dir = "/home/alice".to_string();
    context
}

fn render(template: &str, context: &Context) -> String {
    components(template, context).unwrap().concat()
}

#[test]
fn literal_template_renders_to_itself() {
    let context = plain_context();
    assert_eq!(render("just text, no braces", &context), "just text, no braces");
}

#[test]
fn scenario_cwd_and_dollar() {
    let context = plain_context();
    assert_eq!(render("{cwd} $ ", &context), "~/proj $ ");
}

#[test]
fn scenario_branch_outside_repository() {
    let mut context = plain_context();
    context.shell = Shell::Zsh;
    assert_eq!(render("{red}{git_branch}{reset} $ ", &context), " $ ");
}

#[test]
fn scenario_short_cwd_keeps_repo_segment() {
    let mut context = plain_context();
    context.current_dir = "/home/foo/axx/bxx/repo/cxx/dxx".to_string();
    context.home_dir = "/home/foo".to_string();
    context.repo_root = Some("/home/foo/axx/bxx/repo/.git".to_string());
    assert_eq!(render("{cwd style=short}", &context), "~/a/b/repo/c/dxx");
}

#[test]
fn scenario_unknown_option_fails() {
    let context = plain_context();
    let err = components("{cwd bogus=1}", &context).unwrap_err();
    assert_eq!(err.message(), "error: invalid options: bogus=1");
}

#[test]
fn empty_template_is_a_parse_error() {
    let context = plain_context();
    assert_eq!(components("", &context).unwrap_err(), Error::Parse(0));
}

#[test]
fn parse_errors_carry_the_stuck_offset() {
    let context = plain_context();
    let err = components("{bogus}", &context).unwrap_err();
    assert_eq!(err, Error::Parse(0));
    assert_eq!(err.message(), "parse error: unexpected input at character 0");

    let err = components("foo{bogus}", &context).unwrap_err();
    assert_eq!(err, Error::Parse(3));
    assert_eq!(err.message(), "parse error: unexpected input at character 3");
}

#[test]
fn shell_names_parse() {
    assert_eq!(Shell::from_name("zsh"), Some(Shell::Zsh));
    assert_eq!(Shell::from_name("bash"), Some(Shell::Bash));
    assert_eq!(Shell::from_name("no_wrap"), Some(Shell::NoWrap));
    assert_eq!(Shell::from_name("fish"), None);
}

#[test]
fn branch_renders_inside_repository() {
    let mut context = plain_context();
    context.git_branch = Some("main".to_string());
    assert_eq!(render("{red}{git_branch}{reset}", &context), "\u{1b}[38;5;9mmain\u{1b}[0m");
}

#[test]
fn commit_is_abbreviated_to_seven_characters() {
    let mut context = plain_context();
    context.git_commit = Some("0123456789abcdef0123456789abcdef01234567".to_string());
    assert_eq!(render("{git_commit}", &context), "0123456");

    context.git_commit = Some("abc".to_string());
    assert_eq!(render("{git_commit}", &context), "abc");
}

#[test]
fn decimal_rendering_is_exact() {
    assert_eq!(aurora_prompt::utility::decimal_string(0), "0");
    assert_eq!(aurora_prompt::utility::decimal_string(7), "7");
    assert_eq!(aurora_prompt::utility::decimal_string(1040), "1040");
    assert_eq!(aurora_prompt::utility::decimal_string(u64::MAX), "18446744073709551615");
}

#[test]
fn wrapping_follows_the_shell() {
    assert_eq!(wrap_no_change_cursor_position("X", &Shell::Zsh), "%{X%}");
    assert_eq!(wrap_no_change_cursor_position("X", &Shell::Bash), "\\[X\\]");
    assert_eq!(wrap_no_change_cursor_position("X", &Shell::NoWrap), "X");
}

#[test]
fn stash_count_renders_with_plus() {
    let mut context = plain_context();
    context.git_stash_count = Some(1234);
    assert_eq!(render("{git_stash}", &context), "1234+");
}

#[test]
fn zero_stashes_render_as_nothing() {
    let mut context = plain_context();
    context.git_stash_count = Some(0);
    // The literal shares the absent component's group and is dropped with it.
    assert_eq!(render("x{git_stash}", &context), "");
    // A color pair closes the group, so the literal outside it survives.
    assert_eq!(render("x{red}{git_stash}{reset}", &context), "x");
}

#[test]
fn status_flags_render_in_fixed_order() {
    let mut context = plain_context();
    context.git_status = Some(StatusFlags {
        wt_modified: true,
        wt_new: true,
        wt_deleted: false,
        index_changed: true,
    });
    assert_eq!(render("{git_status}", &context), "*+^");
}

#[test]
fn clean_status_renders_as_nothing() {
    let mut context = plain_context();
    context.git_status = Some(StatusFlags {
        wt_modified: false,
        wt_new: false,
        wt_deleted: false,
        index_changed: false,
    });
    assert_eq!(render("x{red}{git_status}{reset}", &context), "x");
}

#[test]
fn hostname_user_and_jobs_render() {
    let mut context = plain_context();
    context.hostname = Some("box".to_string());
    context.user = Some("alice".to_string());
    context.backgrounded_jobs = Some("2".to_string());
    assert_eq!(render("{user}@{hostname} {jobs}", &context), "alice@box 2");
}

#[test]
fn empty_jobs_indicator_is_absent() {
    let mut context = plain_context();
    context.backgrounded_jobs = Some("".to_string());
    assert_eq!(render("x{red}{jobs}{reset}", &context), "x");
}

#[test]
fn env_component_reads_the_environment() {
    let mut context = plain_context();
    context.env = vec![("FOO".to_string(), "bar".to_string())];
    assert_eq!(render("{env name=FOO}", &context), "bar");
    assert_eq!(render("x{env name=MISSING}", &context), "");
}

#[test]
fn env_component_requires_a_name() {
    let context = plain_context();
    let err = components("{env}", &context).unwrap_err();
    assert_eq!(err.message(), "error: missing environment variable name");
}

#[test]
fn invalid_style_and_boolean_are_reported() {
    let context = plain_context();
    assert_eq!(
        components("{cwd style=tiny}", &context).unwrap_err().message(),
        "error: invalid style: tiny"
    );
    assert_eq!(
        components("{cwd style=short underline_repo=maybe}", &context).unwrap_err().message(),
        "error: invalid boolean: maybe"
    );
}

#[test]
fn exit_status_condition_picks_a_branch() {
    let mut context = plain_context();
    assert_eq!(render("{if last_command_status}ok{else}no{end}", &context), "ok");
    context.last_command_status = 1;
    assert_eq!(render("{if last_command_status}ok{else}no{end}", &context), "no");
    assert_eq!(render("x{if last_command_status}ok{end}", &context), "x");
}

#[test]
fn environment_condition_picks_a_branch() {
    let mut context = plain_context();
    context.env = vec![("FOO".to_string(), "".to_string())];
    assert_eq!(render("{if $FOO}set{else}unset{end}", &context), "set");
    assert_eq!(render("{if $BAR}set{else}unset{end}", &context), "unset");
}

#[test]
fn display_green() {
    let green = color_start(&StyleToken::Green, &Shell::Zsh);
    assert_eq!(green, "%{\u{1b}[38;5;10m%}".to_string());

    let green = color_start(&StyleToken::Green, &Shell::Bash);
    assert_eq!(green, "\\[\u{1b}[38;5;10m\\]".to_string());
}

#[test]
fn it_wraps_green() {
    assert_green(Shell::Zsh, "%{\u{1b}[38;5;10m%}");
    assert_green(Shell::Bash, "\\[\u{1b}[38;5;10m\\]");
}

fn assert_green(shell: Shell, expected: &str) {
    let green = color_start(&StyleToken::Green, &shell);
    assert_eq!(green, expected.to_string())
}

#[test]
fn reset_is_the_zero_escape() {
    assert_eq!(color_reset(&Shell::NoWrap), "\u{1b}[0m".to_string());
    assert_eq!(color_reset(&Shell::Zsh), "%{\u{1b}[0m%}".to_string());
}

#[test]
fn color_escapes_match_the_terminal_convention() {
    crossterm::style::Colored::set_ansi_color_disabled(false);
    let pairs = vec![
        (StyleToken::Black, crossterm::style::Color::Black),
        (StyleToken::DarkGrey, crossterm::style::Color::DarkGrey),
        (StyleToken::Red, crossterm::style::Color::Red),
        (StyleToken::DarkRed, crossterm::style::Color::DarkRed),
        (StyleToken::Green, crossterm::style::Color::Green),
        (StyleToken::DarkGreen, crossterm::style::Color::DarkGreen),
        (StyleToken::Yellow, crossterm::style::Color::Yellow),
        (StyleToken::DarkYellow, crossterm::style::Color::DarkYellow),
        (StyleToken::Blue, crossterm::style::Color::Blue),
        (StyleToken::DarkBlue, crossterm::style::Color::DarkBlue),
        (StyleToken::Magenta, crossterm::style::Color::Magenta),
        (StyleToken::DarkMagenta, crossterm::style::Color::DarkMagenta),
        (StyleToken::Cyan, crossterm::style::Color::Cyan),
        (StyleToken::DarkCyan, crossterm::style::Color::DarkCyan),
        (StyleToken::White, crossterm::style::Color::White),
        (StyleToken::Grey, crossterm::style::Color::Grey),
    ];
    for (ours, theirs) in pairs {
        let expected = format!("\u{1b}[{}m", crossterm::style::Colored::ForegroundColor(theirs));
        assert_eq!(color_start(&ours, &Shell::NoWrap), expected);
    }
}
