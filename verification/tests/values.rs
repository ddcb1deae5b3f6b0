use tictacrs::game::board::Piece;
use tictacrs::states::{HALF, SCALE};
use tictacrs::values::{td_update, ValueTable};

const E: Piece = Piece::Empty;
const X: Piece = Piece::X;
const O: Piece = Piece::O;

#[test]
fn evaluate_won_state_is_one() {
    let mut table = ValueTable::new();
    let won_row: [Piece; 9] = [X, X, X, O, O, E, E, E, E];
    assert_eq!(table.evaluate(&won_row, X), SCALE);
    // The exact outcome value is also what stays recorded.
    assert_eq!(table.lookup(&won_row), Some(SCALE));
}

#[test]
fn evaluate_lost_state_is_zero() {
    let mut table = ValueTable::new();
    let won_row: [Piece; 9] = [X, X, X, O, O, E, E, E, E];
    assert_eq!(table.evaluate(&won_row, O), 0);
    let won_col: [Piece; 9] = [O, X, E, O, X, E, E, X, E];
    assert_eq!(table.evaluate(&won_col, O), 0);
}

#[test]
fn evaluate_draw_state_is_zero() {
    let mut table = ValueTable::new();
    let draw: [Piece; 9] = [X, O, X, X, O, O, O, X, X];
    assert_eq!(table.evaluate(&draw, X), 0);
    let mut table = ValueTable::new();
    assert_eq!(table.evaluate(&draw, O), 0);
}

#[test]
fn evaluate_values_stay_in_range() {
    let mut table = ValueTable::new();
    let diag: [Piece; 9] = [O, X, X, X, O, X, X, X, O];
    let v = table.evaluate(&diag, X);
    assert!(v <= SCALE);
    assert_eq!(v, 0);
}

#[test]
fn unseen_state_defaults_to_half_and_stays() {
    let mut table = ValueTable::new();
    let empty_board: [Piece; 9] = [E, E, E, E, E, E, E, E, E];
    assert!(!table.contains(&empty_board));
    assert_eq!(table.evaluate(&empty_board, X), HALF);
    assert!(table.contains(&empty_board));
    assert_eq!(table.evaluate(&empty_board, X), HALF);
    assert_eq!(table.lookup(&empty_board), Some(HALF));
}

#[test]
fn set_overrides_a_stored_value() {
    let mut table = ValueTable::new();
    let state: [Piece; 9] = [X, E, E, E, E, E, E, E, E];
    assert_eq!(table.evaluate(&state, X), HALF);
    table.set(&state, 725_000);
    assert_eq!(table.evaluate(&state, X), 725_000);
}

#[test]
fn td_update_with_zero_rate_is_identity() {
    assert_eq!(td_update(300_000, 700_000, 0), 300_000);
    assert_eq!(td_update(700_000, 300_000, 0), 700_000);
}

#[test]
fn td_update_with_full_rate_snaps_to_target() {
    assert_eq!(td_update(300_000, 700_000, SCALE), 700_000);
    assert_eq!(td_update(700_000, 300_000, SCALE), 300_000);
}

#[test]
fn td_update_moves_by_the_rate_fraction() {
    // new = old + lr * (target - old) / SCALE, exactly.
    assert_eq!(td_update(500_000, 1_000_000, 750_000), 875_000);
    assert_eq!(td_update(500_000, 0, 750_000), 125_000);
    assert_eq!(td_update(400_000, 600_000, 500_000), 500_000);
}
