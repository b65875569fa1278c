use bx::paths::{render, render_content, to_portable};

/// A deliberately non-standard home: nothing here may name a real account, and
/// nothing here may assume `/home/<user>`.
const HOME: &str = "/var/home/example";

#[test]
fn a_path_under_home_becomes_tilde_relative() {
    assert_eq!(
        to_portable("/var/home/example/.gitconfig", HOME),
        "~/.gitconfig"
    );
}

#[test]
fn a_nested_path_keeps_its_tail() {
    assert_eq!(
        to_portable(
            "/var/home/example/.ssh/config.d/10-hosts.conf",
            HOME
        ),
        "~/.ssh/config.d/10-hosts.conf"
    );
}

#[test]
fn home_itself_is_a_bare_tilde() {
    assert_eq!(to_portable(HOME, HOME), "~");
}

#[test]
fn a_path_outside_home_is_left_absolute() {
    assert_eq!(
        to_portable("/usr/bin/sccache", HOME),
        "/usr/bin/sccache"
    );
}

#[test]
fn a_prefix_that_is_not_a_path_component_does_not_match() {
    // /var/home/example-backup is not inside /var/home/example.
    assert_eq!(
        to_portable("/var/home/example-backup/x", HOME),
        "/var/home/example-backup/x"
    );
}

#[test]
fn rendering_reverses_portability() {
    let original = "/var/home/example/.config/starship.toml";
    assert_eq!(render(&to_portable(original, HOME), HOME), original);
}

#[test]
fn the_same_repo_renders_against_a_different_home() {
    // The whole point: one repo, two machines.
    assert_eq!(
        render("~/.gitconfig", "/home/other"),
        "/home/other/.gitconfig"
    );
    assert_eq!(
        render("~/.gitconfig", HOME),
        "/var/home/example/.gitconfig"
    );
}

#[test]
fn a_bare_tilde_renders_to_home() {
    assert_eq!(render("~", HOME), HOME);
}

#[test]
fn an_absolute_path_renders_unchanged() {
    assert_eq!(
        render("/usr/bin/sccache", HOME),
        "/usr/bin/sccache"
    );
}

#[test]
fn another_users_home_is_never_expanded() {
    assert_eq!(
        render("~other/.linuxbrew", HOME),
        "~other/.linuxbrew"
    );
}

#[test]
fn content_expands_a_leading_tilde_per_line() {
    let rendered = render_content("~/.cargo/bin\n~/.local/bin\n", HOME);
    assert_eq!(
        rendered,
        "/var/home/example/.cargo/bin\n/var/home/example/.local/bin\n"
    );
}

#[test]
fn content_preserves_indentation() {
    let rendered = render_content("  ~/.ssh/config.d/*.conf\n", HOME);
    assert_eq!(rendered, "  /var/home/example/.ssh/config.d/*.conf\n");
}

#[test]
fn a_tilde_that_is_not_leading_is_content() {
    // Rendering must never corrupt a file body: these are all real config.
    let body = "path = a~b\nignore = *~\nbackup=~/x is not leading\n";
    assert_eq!(render_content(body, HOME), body);
}

#[test]
fn content_without_a_trailing_newline_is_preserved() {
    assert_eq!(
        render_content("~/.gitconfig", HOME),
        "/var/home/example/.gitconfig"
    );
}

#[test]
fn empty_content_stays_empty() {
    assert_eq!(render_content("", HOME), "");
}
