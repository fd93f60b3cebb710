//! Tests of command-line parameter parsing, option storage, merging of
//! same-option spellings, and policy validation.

use gtk_cursor_navigator::CliError;
use gtk_cursor_navigator::cli::CliOptsArgs;
use gtk_cursor_navigator::cli::CliOptsExd;
use gtk_cursor_navigator::cli::CliParas;
use gtk_cursor_navigator::cli::CliValidParameters;
use gtk_cursor_navigator::cli::cli_paras_check_valid;
use gtk_cursor_navigator::cli::cli_paras_parse;

fn args(list: &[&str]) -> Vec<String> {
    list.iter().map(|s| s.to_string()).collect()
}

fn no_valid_paras() -> CliValidParameters {
    CliValidParameters { patterns: None, opts_args: None }
}

#[test]
fn parse_empty_gives_nothing() {
    let paras = cli_paras_parse(&args(&[]));
    assert!(paras.name.is_none());
    assert!(paras.pattern.is_none());
    assert!(paras.opts_args.is_none());
}

#[test]
fn parse_name_only() {
    let paras = cli_paras_parse(&args(&["prog"]));
    assert_eq!(paras.name.as_deref(), Some("prog"));
    assert!(paras.pattern.is_none());
    assert!(paras.opts_args.is_none());
}

#[test]
fn parse_name_pattern_and_options() {
    let paras = cli_paras_parse(&args(&["prog", "pat", "-a", "1", "2", "-b"]));
    assert_eq!(paras.name.as_deref(), Some("prog"));
    assert_eq!(paras.pattern.as_deref(), Some("pat"));
    assert!(paras.contains_name());
    assert!(paras.contains_opt("-a"));
    assert!(paras.contains_opt("-b"));
    assert!(!paras.contains_opt("-c"));
    assert!(paras.contains_arg("-a"));
    assert!(!paras.contains_arg("-b"));
    assert!(!paras.contains_arg("-c"));
    assert_eq!(paras.get_args("-a"), Some(vec!["1".to_string(), "2".to_string()]));
    assert_eq!(paras.get_args("-b"), None);
    assert_eq!(paras.get_args("-c"), None);
}

#[test]
fn parse_option_as_second_argument() {
    let paras = cli_paras_parse(&args(&["prog", "-x", "v"]));
    assert!(paras.pattern.is_none());
    assert_eq!(paras.get_args("-x"), Some(vec!["v".to_string()]));
}

#[test]
fn parse_values_before_any_option_are_dropped() {
    let paras = cli_paras_parse(&args(&["prog", "pat", "stray", "-a", "v"]));
    assert_eq!(paras.pattern.as_deref(), Some("pat"));
    assert_eq!(paras.get_args("-a"), Some(vec!["v".to_string()]));
    assert!(!paras.contains_opt("stray"));
}

#[test]
fn parse_repeated_option_accumulates() {
    let paras = cli_paras_parse(&args(&["prog", "-a", "1", "-a", "2"]));
    assert_eq!(paras.get_args("-a"), Some(vec!["1".to_string(), "2".to_string()]));
}

#[test]
fn insert_opt_arg_builds_the_map_lazily() {
    let mut opts: Option<CliOptsArgs> = None;
    opts.insert_opt_arg("-x".to_string(), None);
    let m = opts.as_ref().unwrap();
    assert!(m.contains_key_exec("-x"));
    assert_eq!(m.get_flat("-x"), None);

    opts.insert_opt_arg("-x".to_string(), Some("v".to_string()));
    opts.insert_opt_arg("-x".to_string(), None);
    opts.insert_opt_arg("-x".to_string(), Some("w".to_string()));
    let m = opts.as_ref().unwrap();
    assert_eq!(m.get_flat("-x"), Some(vec!["v".to_string(), "w".to_string()]));
}

#[test]
fn opts_exd_new_wraps() {
    let wrapped = <Option<CliOptsArgs> as CliOptsExd>::new(None);
    assert!(wrapped.is_none());
}

#[test]
fn merge_long_values_come_first() {
    let paras = cli_paras_parse(&args(&["prog", "-a", "1", "--alpha", "2"]));
    let same: Vec<(&str, &str)> = vec![("-a", "--alpha")];
    let merged = paras.merge_opts_args(&same);
    assert_eq!(
        merged.get_args("--alpha"),
        Some(vec!["2".to_string(), "1".to_string()])
    );
    assert!(!merged.contains_opt("-a"));
}

#[test]
fn merge_keeps_only_named_pairs() {
    let paras = cli_paras_parse(&args(&["prog", "-a", "1", "-b", "2"]));
    let same: Vec<(&str, &str)> = vec![("-a", "--alpha")];
    let merged = paras.merge_opts_args(&same);
    assert!(merged.contains_opt("--alpha"));
    assert!(!merged.contains_opt("-b"));
    assert_eq!(merged.name.as_deref(), Some("prog"));
}

#[test]
fn merge_of_absent_options_is_empty() {
    let paras = cli_paras_parse(&args(&["prog", "-c"]));
    let same: Vec<(&str, &str)> = vec![("-a", "--alpha")];
    let merged = paras.merge_opts_args(&same);
    assert!(merged.opts_args.is_some());
    assert!(!merged.contains_opt("--alpha"));
}

#[test]
fn merge_without_any_options_stays_none() {
    let paras = cli_paras_parse(&args(&["prog", "pat"]));
    let same: Vec<(&str, &str)> = vec![("-a", "--alpha")];
    let merged = paras.merge_opts_args(&same);
    assert!(merged.opts_args.is_none());
    assert_eq!(merged.pattern.as_deref(), Some("pat"));
}

#[test]
fn contains_pattern_follows_pattern() {
    let paras = CliParas::new(Some("prog".to_string()), None, None);
    assert!(paras.contains_name());
    assert!(!paras.contains_pattern());
    let paras = CliParas::new(None, Some("pat".to_string()), None);
    assert!(!paras.contains_name());
    assert!(paras.contains_pattern());
}

#[test]
fn check_valid_requires_pattern() {
    let paras = cli_paras_parse(&args(&["prog"]));
    assert_eq!(
        cli_paras_check_valid(&paras, &no_valid_paras(), true, true),
        Err(CliError::MissingPattern)
    );
}

#[test]
fn check_valid_rejects_unexpected_pattern() {
    let paras = cli_paras_parse(&args(&["prog", "pat"]));
    assert_eq!(
        cli_paras_check_valid(&paras, &no_valid_paras(), false, true),
        Err(CliError::UnexpectedPattern)
    );
}

#[test]
fn check_valid_rejects_unexpected_options() {
    let paras = cli_paras_parse(&args(&["prog", "-a"]));
    assert_eq!(
        cli_paras_check_valid(&paras, &no_valid_paras(), false, false),
        Err(CliError::UnexpectedOptsArgs)
    );
}

#[test]
fn check_valid_accepts_conforming_invocations() {
    let with_pattern = cli_paras_parse(&args(&["prog", "pat"]));
    assert_eq!(cli_paras_check_valid(&with_pattern, &no_valid_paras(), true, false), Ok(()));
    let bare = cli_paras_parse(&args(&["prog"]));
    assert_eq!(cli_paras_check_valid(&bare, &no_valid_paras(), false, false), Ok(()));
    let with_opts = cli_paras_parse(&args(&["prog", "-v"]));
    assert_eq!(cli_paras_check_valid(&with_opts, &no_valid_paras(), false, true), Ok(()));
}
