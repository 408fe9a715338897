use aurora_prompt::component::cwd::{replace_home_dir, short};
use aurora_prompt::Shell;

#[test]
fn test_replace_home_dir() {
    let current_dir = "/home/foo/bar/baz";
    let home_dir = "/home/foo";

    assert_eq!(replace_home_dir(&current_dir, &home_dir), "~/bar/baz".to_string());
}

#[test]
fn test_replace_home_dir_in_home_dir() {
    let current_dir = "/home/foo";
    let home_dir = "/home/foo";

    assert_eq!(replace_home_dir(&current_dir, &home_dir), "~".to_string());
}

#[test]
fn test_replace_home_dir_only_touches_the_prefix() {
    assert_eq!(
        replace_home_dir("/srv/home/foo/bar", "/home/foo"),
        "/srv/home/foo/bar".to_string()
    );
    assert_eq!(replace_home_dir("/home/foo/bar", ""), "/home/foo/bar".to_string());
}

#[test]
fn short_test() {
    let current_dir = "/home/foo/axx/bxx/repo/cxx/dxx";
    let home_dir = "/home/foo";
    let git_root = "/home/foo/axx/bxx/repo/.git";

    assert_eq!(
        short(&current_dir, &home_dir, Some(&git_root), false, false, &Shell::Zsh),
        "~/a/b/repo/c/dxx".to_string()
    );

    let current_dir = "/home/foo/axx/bxx/repo";
    assert_eq!(
        short(&current_dir, &home_dir, Some(&git_root), false, false, &Shell::Zsh),
        "~/a/b/repo".to_string()
    );
}

#[test]
fn short_test_single_dir_repo() {
    let current_dir = "/home/foo/axx";
    let home_dir = "/home/foo";
    let git_root = "/home/foo/axx/.git";

    assert_eq!(
        short(&current_dir, &home_dir, Some(&git_root), false, false, &Shell::Zsh),
        "~/axx".to_string()
    );
}

#[test]
fn short_test_root() {
    let current_dir = "/foo/bar/axx/bxx/cxx/dxx";
    let home_dir = "/home/baz";
    let git_root = "/foo/bar/axx/.git";

    assert_eq!(
        short(&current_dir, &home_dir, Some(&git_root), false, false, &Shell::Zsh),
        "/f/b/axx/b/c/dxx".to_string()
    );
}

#[test]
fn short_test_root_no_repo() {
    let current_dir = "/foo/bar/axx/bxx/cxx/dxx";
    let home_dir = "/home/baz";

    assert_eq!(
        short(&current_dir, &home_dir, None, false, false, &Shell::Zsh),
        "/f/b/a/b/c/dxx".to_string()
    );
}

#[test]
fn short_test_dot_dirs() {
    let current_dir = "/.axx/./..xx/.dxx";
    let home_dir = "/home/baz";

    assert_eq!(
        short(&current_dir, &home_dir, None, false, false, &Shell::Zsh),
        "/.a/./../.dxx".to_string()
    );
}

#[test]
fn short_test_underline_and_bold() {
    let current_dir = "/home/foo/axx/repo/bxx";
    let home_dir = "/home/foo";
    let git_root = "/home/foo/axx/repo/.git";

    assert_eq!(
        short(&current_dir, &home_dir, Some(&git_root), true, false, &Shell::NoWrap),
        "~/a/\u{1b}[4mrepo\u{1b}[24m/bxx".to_string()
    );
    assert_eq!(
        short(&current_dir, &home_dir, Some(&git_root), false, true, &Shell::NoWrap),
        "~/a/\u{1b}[1mrepo\u{1b}[21m/bxx".to_string()
    );
}
