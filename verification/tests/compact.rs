use tictacrs::agents::players::Player;
use tictacrs::game::board::Piece;

#[test]
fn test_check_winner_col() {
    let test_board: [Piece; 9] = [
        Piece::Empty,
        Piece::Empty,
        Piece::Empty,
        Piece::Empty,
        Piece::Empty,
        Piece::Empty,
        Piece::Empty,
        Piece::Empty,
        Piece::Empty,
    ];
    assert_eq!(Player::check_winner_col(&test_board), None);
    let test_board: [Piece; 9] = [
        Piece::X,
        Piece::O,
        Piece::X,
        Piece::O,
        Piece::O,
        Piece::O,
        Piece::O,
        Piece::X,
        Piece::X,
    ];
    assert_eq!(Player::check_winner_col(&test_board), None);
    let test_board: [Piece; 9] = [
        Piece::X,
        Piece::Empty,
        Piece::Empty,
        Piece::X,
        Piece::Empty,
        Piece::Empty,
        Piece::X,
        Piece::Empty,
        Piece::Empty,
    ];
    assert_eq!(Player::check_winner_col(&test_board), Some(Piece::X));
}

#[test]
fn test_check_winner_row() {
    let test_board: [Piece; 9] = [
        Piece::Empty,
        Piece::Empty,
        Piece::Empty,
        Piece::Empty,
        Piece::Empty,
        Piece::Empty,
        Piece::Empty,
        Piece::Empty,
        Piece::Empty,
    ];
    assert_eq!(Player::check_winner_row(&test_board), None);
    let test_board: [Piece; 9] = [
        Piece::X,
        Piece::O,
        Piece::X,
        Piece::O,
        Piece::O,
        Piece::X,
        Piece::X,
        Piece::O,
        Piece::O,
    ];
    assert_eq!(Player::check_winner_row(&test_board), None);
    let test_board: [Piece; 9] = [
        Piece::X,
        Piece::X,
        Piece::X,
        Piece::O,
        Piece::O,
        Piece::X,
        Piece::X,
        Piece::O,
        Piece::O,
    ];
    assert_eq!(Player::check_winner_row(&test_board), Some(Piece::X));
}

#[test]
fn check_winner_diag() {
    let test_board: [Piece; 9] = [
        Piece::Empty,
        Piece::Empty,
        Piece::Empty,
        Piece::Empty,
        Piece::Empty,
        Piece::Empty,
        Piece::Empty,
        Piece::Empty,
        Piece::Empty,
    ];
    assert_eq!(Player::check_winner_diag(&test_board), None);
    let test_board: [Piece; 9] = [
        Piece::X,
        Piece::X,
        Piece::X,
        Piece::O,
        Piece::O,
        Piece::O,
        Piece::X,
        Piece::X,
        Piece::X,
    ];
    assert_eq!(Player::check_winner_diag(&test_board), None);
    let test_board: [Piece; 9] = [
        Piece::X,
        Piece::O,
        Piece::O,
        Piece::O,
        Piece::X,
        Piece::O,
        Piece::O,
        Piece::O,
        Piece::X,
    ];
    assert_eq!(Player::check_winner_diag(&test_board), Some(Piece::X));
}

#[test]
fn players_test_check_winner() {
    let test_board: [Piece; 9] = [
        Piece::Empty,
        Piece::Empty,
        Piece::Empty,
        Piece::Empty,
        Piece::Empty,
        Piece::Empty,
        Piece::Empty,
        Piece::Empty,
        Piece::Empty,
    ];
    assert_eq!(Player::check_winner(&test_board), None);
    let test_board: [Piece; 9] = [
        Piece::X,
        Piece::Empty,
        Piece::Empty,
        Piece::Empty,
        Piece::Empty,
        Piece::Empty,
        Piece::Empty,
        Piece::Empty,
        Piece::Empty,
    ];
    assert_eq!(Player::check_winner(&test_board), None);
    let test_board: [Piece; 9] = [
        Piece::X,
        Piece::O,
        Piece::X,
        Piece::O,
        Piece::O,
        Piece::X,
        Piece::X,
        Piece::X,
        Piece::O,
    ];
    assert_eq!(Player::check_winner(&test_board), None);
    let test_board: [Piece; 9] = [
        Piece::X,
        Piece::Empty,
        Piece::Empty,
        Piece::X,
        Piece::Empty,
        Piece::Empty,
        Piece::X,
        Piece::Empty,
        Piece::Empty,
    ];
    assert_eq!(Player::check_winner(&test_board), Some(Piece::X));
}
