//! Tests of code-space generation: phase order, counts, truncation, errors.

use gtk_cursor_navigator::ConfigurationError;
use gtk_cursor_navigator::SelectedKeys;
use gtk_cursor_navigator::generate_token_list;

fn keys_qw_er() -> SelectedKeys {
    SelectedKeys::new("Q W", "E R")
}

#[test]
fn scenario_four_cells() {
    let keys = keys_qw_er();
    let tokens = generate_token_list(4, &keys).unwrap();
    assert_eq!(tokens, vec!["QE", "QR", "WE", "WR"]);
}

#[test]
fn scenario_five_cells_draws_from_phase_two() {
    let keys = keys_qw_er();
    // Phase one holds only four codes; the fifth comes from phase two,
    // which is possible since phases one and two together hold eight.
    let tokens = generate_token_list(5, &keys).unwrap();
    assert_eq!(tokens, vec!["QE", "QR", "WE", "WR", "EQ"]);
}

#[test]
fn full_code_space_in_phase_order() {
    let keys = keys_qw_er();
    // n*m + m*n + n*(n-1) + m*(m-1) = 4 + 4 + 2 + 2 = 12 codes in all.
    let tokens = generate_token_list(12, &keys).unwrap();
    assert_eq!(
        tokens,
        vec!["QE", "QR", "WE", "WR", "EQ", "EW", "RQ", "RW", "QW", "WQ", "ER", "RE"]
    );
}

#[test]
fn pre_truncation_count_formula() {
    // Sizes (3, 2): 3*2 + 2*3 + 3*2 + 2*1 = 20.
    let keys = SelectedKeys::new("A B C", "X Y");
    assert_eq!(generate_token_list(20, &keys).unwrap().len(), 20);
    assert_eq!(
        generate_token_list(21, &keys),
        Err(ConfigurationError::InsufficientCodeSpace)
    );
}

#[test]
fn zero_total_gives_empty_list() {
    let keys = keys_qw_er();
    let tokens = generate_token_list(0, &keys).unwrap();
    assert!(tokens.is_empty());
}

#[test]
fn too_large_total_fails_not_pads() {
    let keys = keys_qw_er();
    assert_eq!(
        generate_token_list(13, &keys),
        Err(ConfigurationError::InsufficientCodeSpace)
    );
}

#[test]
fn truncation_keeps_the_leading_codes() {
    let keys = keys_qw_er();
    let all = generate_token_list(12, &keys).unwrap();
    for total in 0..=12 {
        let tokens = generate_token_list(total, &keys).unwrap();
        assert_eq!(tokens[..], all[..total]);
    }
}

#[test]
fn key_list_strings_split_on_whitespace() {
    let keys = SelectedKeys::new("  Q   W ", "\tE\nR");
    assert_eq!(keys.left, vec!["Q", "W"]);
    assert_eq!(keys.right, vec!["E", "R"]);
}

#[test]
fn default_key_set_sizes() {
    let keys = SelectedKeys::default();
    assert_eq!(keys.left.len(), 21);
    assert_eq!(keys.right.len(), 25);
    assert_eq!(keys.left[0], "`");
    assert_eq!(keys.right[0], "6");
}

#[test]
fn multi_character_keys_concatenate() {
    let keys = SelectedKeys::new("ab", "cd");
    let tokens = generate_token_list(2, &keys).unwrap();
    assert_eq!(tokens, vec!["abcd", "cdab"]);
}
