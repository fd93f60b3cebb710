//! Tests of the selection engine: narrowing, resolution, aborts, case
//! folding, purity, and the stateful wrapper.

use gtk_cursor_navigator::SelectionState;
use gtk_cursor_navigator::SelectionStatus;
use gtk_cursor_navigator::advance;
use gtk_cursor_navigator::fold_key_char;
use gtk_cursor_navigator::CODE_LENGTH;

fn codes(list: &[&str]) -> Vec<String> {
    list.iter().map(|s| s.to_string()).collect()
}

#[test]
fn code_length_is_two() {
    assert_eq!(CODE_LENGTH, 2);
}

#[test]
fn scenario_narrow_then_resolve() {
    let codes = codes(&["QE", "QR", "WE", "WR"]);
    let (buf, st) = advance(&codes, "", 'Q');
    assert_eq!(buf, "Q");
    assert_eq!(st, SelectionStatus::Narrowing);
    let (buf, st) = advance(&codes, &buf, 'E');
    assert_eq!(buf, "QE");
    assert_eq!(st, SelectionStatus::Resolved(0));
}

#[test]
fn scenario_abort_resets_buffer() {
    let codes = codes(&["AB", "AC"]);
    let (buf, st) = advance(&codes, "", 'A');
    assert_eq!(buf, "A");
    assert_eq!(st, SelectionStatus::Narrowing);
    let (buf, st) = advance(&codes, &buf, 'D');
    assert_eq!(buf, "");
    assert_eq!(st, SelectionStatus::Aborted);
}

#[test]
fn no_prefix_match_aborts_immediately() {
    let codes = codes(&["AB", "AC"]);
    let (buf, st) = advance(&codes, "", 'Z');
    assert_eq!(buf, "");
    assert_eq!(st, SelectionStatus::Aborted);
}

#[test]
fn exhausted_length_without_match_aborts() {
    // "A" narrows, "AB" matches both longer codes exactly nowhere: with
    // three-character codes the buffer hits the fixed code length first.
    let codes = codes(&["ABX", "ABY"]);
    let (buf, _) = advance(&codes, "", 'A');
    let (buf, st) = advance(&codes, &buf, 'B');
    assert_eq!(buf, "");
    assert_eq!(st, SelectionStatus::Aborted);
}

#[test]
fn lowercase_input_is_folded() {
    let codes = codes(&["QE", "QR"]);
    let (buf, st) = advance(&codes, "", 'q');
    assert_eq!(buf, "Q");
    assert_eq!(st, SelectionStatus::Narrowing);
    let (buf, st) = advance(&codes, &buf, 'e');
    assert_eq!(buf, "QE");
    assert_eq!(st, SelectionStatus::Resolved(0));
}

#[test]
fn fold_key_char_cases() {
    assert_eq!(fold_key_char('a'), 'A');
    assert_eq!(fold_key_char('z'), 'Z');
    assert_eq!(fold_key_char('Q'), 'Q');
    assert_eq!(fold_key_char('-'), '-');
    assert_eq!(fold_key_char('9'), '9');
}

#[test]
fn advance_is_pure() {
    let codes = codes(&["QE", "QR", "WE"]);
    let first = advance(&codes, "Q", 'R');
    let second = advance(&codes, "Q", 'R');
    assert_eq!(first, second);
    assert_eq!(first.1, SelectionStatus::Resolved(1));
}

#[test]
fn each_cell_resolved_only_by_its_code() {
    let codes = codes(&["QE", "QR", "WE", "WR"]);
    let alphabet = ['Q', 'W', 'E', 'R'];
    for (i, code) in codes.iter().enumerate() {
        let mut hits = 0;
        for a in alphabet {
            for b in alphabet {
                let (buf, st) = advance(&codes, "", a);
                let (_, st) = if st == SelectionStatus::Narrowing {
                    advance(&codes, &buf, b)
                } else {
                    (buf, st)
                };
                if st == SelectionStatus::Resolved(i) {
                    hits += 1;
                    assert_eq!(format!("{}{}", a, b), *code);
                }
            }
        }
        assert_eq!(hits, 1);
    }
}

#[test]
fn selection_state_tracks_buffer() {
    let codes = codes(&["QE", "QR"]);
    let mut state = SelectionState::new();
    assert_eq!(state.buffer, "");
    let st = state.advance(&codes, 'q');
    assert_eq!(st, SelectionStatus::Narrowing);
    assert_eq!(state.buffer, "Q");
    let st = state.advance(&codes, 'x');
    assert_eq!(st, SelectionStatus::Aborted);
    assert_eq!(state.buffer, "");
    state.advance(&codes, 'Q');
    let st = state.advance(&codes, 'R');
    assert_eq!(st, SelectionStatus::Resolved(1));
    assert_eq!(state.buffer, "QR");
}
