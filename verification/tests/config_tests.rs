use nix_shell_gen::config::{build_init_config, language_packages, DevShellConfig};

fn names(v: &[&str]) -> Vec<String> {
    v.iter().map(|s| s.to_string()).collect()
}

#[test]
fn append_hook_sets_a_first_hook() {
    let mut cfg = DevShellConfig::default();
    cfg.append_hook("echo hi;");
    assert_eq!(cfg.shell_hook.as_deref(), Some("echo hi"));
}

#[test]
fn append_hook_joins_with_separator() {
    let mut cfg = DevShellConfig::default();
    cfg.append_hook("echo hi");
    cfg.append_hook("ls");
    assert_eq!(cfg.shell_hook.as_deref(), Some("echo hi;\nls"));
}

#[test]
fn append_hook_ignores_blank_and_semicolon_only_text() {
    let mut cfg = DevShellConfig::default();
    cfg.append_hook("   ");
    assert!(cfg.shell_hook.is_none());
    cfg.append_hook(" ;;; ");
    assert!(cfg.shell_hook.is_none());
}

#[test]
fn append_hook_trims_and_strips_trailing_semicolons() {
    let mut cfg = DevShellConfig::default();
    cfg.append_hook("  make test;;  ");
    assert_eq!(cfg.shell_hook.as_deref(), Some("make test"));
}

#[test]
fn add_packages_keeps_names_unique_and_counts_new_ones() {
    let mut cfg = DevShellConfig::default();
    let added = cfg.add_packages(&names(&["a", "b", "a"]));
    assert_eq!(added, 2);
    assert_eq!(cfg.packages, names(&["a", "b"]));
    let added_again = cfg.add_packages(&names(&["b", "c"]));
    assert_eq!(added_again, 1);
    assert_eq!(cfg.packages, names(&["a", "b", "c"]));
}

#[test]
fn language_packages_for_each_template() {
    assert_eq!(language_packages("cpp"), Some(names(&["clang", "cmake", "gdb"])));
    assert_eq!(language_packages("C++"), Some(names(&["clang", "cmake", "gdb"])));
    assert_eq!(language_packages("RUST"), Some(names(&["rustc", "cargo", "rust-analyzer"])));
    assert_eq!(language_packages("Python"), Some(names(&["python3"])));
    assert_eq!(language_packages("go"), None);
}

#[test]
fn build_init_config_assembles_everything() {
    let lang = "rust".to_string();
    let hook = "echo ready".to_string();
    let (cfg, unknown) = build_init_config(
        Some(&lang),
        &names(&["foo"]),
        &names(&["github:owner/repo"]),
        Some(&hook),
        true,
    );
    assert!(!unknown);
    assert_eq!(
        cfg.packages,
        names(&["rustc", "cargo", "rust-analyzer", "foo", "repo.packages.${system}.default"])
    );
    assert_eq!(cfg.shell_hook.as_deref(), Some("echo ready"));
    assert_eq!(cfg.pure, Some(true));
}

#[test]
fn build_init_config_flags_an_unknown_language() {
    let lang = "cobol".to_string();
    let (cfg, unknown) = build_init_config(Some(&lang), &names(&[]), &names(&[]), None, false);
    assert!(unknown);
    assert!(cfg.packages.is_empty());
    assert!(cfg.shell_hook.is_none());
    assert_eq!(cfg.pure, None);
}

#[test]
fn default_config_is_empty() {
    let cfg = DevShellConfig::default();
    assert!(cfg.packages.is_empty());
    assert!(cfg.shell_hook.is_none());
    assert!(cfg.pure.is_none());
}

#[test]
fn append_hook_trims_unicode_whitespace() {
    let mut cfg = DevShellConfig::default();
    cfg.append_hook("\u{b}echo hi\u{a0}");
    assert_eq!(cfg.shell_hook.as_deref(), Some("echo hi"));
    let mut cfg2 = DevShellConfig::default();
    cfg2.append_hook("\u{2028}\u{3000} \u{205f}");
    assert!(cfg2.shell_hook.is_none());
}
