use cargo_rustics::cli::{default_concurrency, strip_cargo_subcommand_token};

#[test]
fn cargo_plugin_token_is_skipped() {
    let args = vec![
        "/path/to/cargo-rustics".to_string(),
        "rustics".to_string(),
        "manual".to_string(),
    ];
    let stripped = strip_cargo_subcommand_token(args);
    assert_eq!(stripped, vec!["/path/to/cargo-rustics", "manual"]);
}

#[test]
fn direct_invocation_passes_through() {
    let args = vec!["cargo-rustics".to_string(), "manual".to_string()];
    let stripped = strip_cargo_subcommand_token(args.clone());
    assert_eq!(stripped, args);
}

#[test]
fn empty_args_pass_through() {
    let args: Vec<String> = vec![];
    let stripped = strip_cargo_subcommand_token(args.clone());
    assert_eq!(stripped, args);
}

#[test]
fn rustics_token_elsewhere_is_kept() {
    let args = vec!["x".to_string(), "manual".to_string(), "rustics".to_string()];
    assert_eq!(strip_cargo_subcommand_token(args.clone()), args);
}

#[test]
fn default_concurrency_is_clamped() {
    assert_eq!(default_concurrency(0), 1);
    assert_eq!(default_concurrency(8), 8);
    assert_eq!(default_concurrency(64), 16);
}
