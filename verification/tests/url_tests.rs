use nix_shell_gen::flake_url::{parse_flake_input, parse_input_to_pkg_string};

#[test]
fn key_is_the_last_segment() {
    let (key, url) = parse_flake_input("github:owner/repo");
    assert_eq!(key, "repo");
    assert_eq!(url, "github:owner/repo");
}

#[test]
fn key_stops_at_a_tilde() {
    let (key, url) = parse_flake_input("github:owner/repo~branch");
    assert_eq!(key, "repo");
    assert_eq!(url, "github:owner/repo~branch");
}

#[test]
fn url_without_slash_is_its_own_key() {
    let (key, url) = parse_flake_input("plain");
    assert_eq!(key, "plain");
    assert_eq!(url, "plain");
}

#[test]
fn trailing_slash_gives_an_empty_key() {
    let (key, _) = parse_flake_input("a/");
    assert_eq!(key, "");
}

#[test]
fn package_string_follows_the_flake_convention() {
    assert_eq!(
        parse_input_to_pkg_string("github:owner/repo"),
        "repo.packages.${system}.default"
    );
    assert_eq!(parse_input_to_pkg_string("x"), "x.packages.${system}.default");
}
