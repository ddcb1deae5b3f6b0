use tictacrs::game::board::{Board, BoardError, Piece};

#[test]
fn test_board_creation() {
    _ = Board::new();
}

#[test]
fn test_make_move() -> Result<(), BoardError> {
    let mut test_board = Board::new();
    test_board.make_move(1, 1, "x")?;
    assert_eq!(test_board.squares[1][1], Piece::X);
    assert_eq!(test_board.squares[1][2], Piece::Empty);
    Ok(())
}

#[test]
fn test_player_move() -> Result<(), BoardError> {
    let mut test_board = Board::new();
    test_board.player_move("b2", "X")?;
    assert_eq!(test_board.squares[1][1], Piece::X);
    assert_eq!(test_board.squares[1][2], Piece::Empty);
    Ok(())
}

#[test]
fn test_nonempty_move() {
    let mut test_board = Board::new();
    _ = test_board.player_move("c1", "o");
    let res = test_board.player_move("c1", "o");
    assert!(res.is_err());
    assert_eq!(res, Err(BoardError::NotEmpty));
}

#[test]
fn test_invalid_piece() {
    let mut test_board = Board::new();
    let res = test_board.player_move("c2", "z");
    assert!(res.is_err());
    assert_eq!(res, Err(BoardError::InvalidPiece));
}

#[test]
fn test_invalid_move() {
    let mut test_board = Board::new();
    let res = test_board.player_move("z2", "o");
    assert!(res.is_err());
    assert_eq!(res, Err(BoardError::InvalidMove));

    let mut test_board = Board::new();
    let res = test_board.player_move("c5", "o");
    assert!(res.is_err());
    assert_eq!(res, Err(BoardError::InvalidMove));
}

#[test]
fn board_test_check_winner() {
    let mut test_board = Board::new();
    assert_eq!(test_board.check_winner(), None);
    test_board.player_move("a1", "o").unwrap();
    test_board.player_move("a2", "o").unwrap();
    test_board.player_move("a3", "o").unwrap();
    assert_eq!(test_board.check_winner_row(), Some(Piece::O));
    assert_eq!(test_board.check_winner(), Some(Piece::O));

    let mut test_board = Board::new();
    assert_eq!(test_board.check_winner(), None);
    test_board.player_move("a1", "o").unwrap();
    test_board.player_move("b1", "o").unwrap();
    test_board.player_move("c1", "o").unwrap();
    assert_eq!(test_board.check_winner_col(), Some(Piece::O));
    assert_eq!(test_board.check_winner(), Some(Piece::O));
}

#[test]
fn test_compact_representation() {
    let mut test_board = Board::new();
    assert_eq!(
        test_board.get_compact_state(),
        [
            Piece::Empty,
            Piece::Empty,
            Piece::Empty,
            Piece::Empty,
            Piece::Empty,
            Piece::Empty,
            Piece::Empty,
            Piece::Empty,
            Piece::Empty
        ]
    );
    test_board.player_move("c2", "X").unwrap();
    assert_eq!(
        test_board.get_compact_state(),
        [
            Piece::Empty,
            Piece::Empty,
            Piece::Empty,
            Piece::Empty,
            Piece::Empty,
            Piece::Empty,
            Piece::Empty,
            Piece::X,
            Piece::Empty,
        ]
    );
    test_board.player_move("a1", "O").unwrap();
    assert_eq!(
        test_board.get_compact_state(),
        [
            Piece::O,
            Piece::Empty,
            Piece::Empty,
            Piece::Empty,
            Piece::Empty,
            Piece::Empty,
            Piece::Empty,
            Piece::X,
            Piece::Empty,
        ]
    );
    test_board.player_move("a3", "X").unwrap();
    assert_eq!(
        test_board.get_compact_state(),
        [
            Piece::O,
            Piece::Empty,
            Piece::X,
            Piece::Empty,
            Piece::Empty,
            Piece::Empty,
            Piece::Empty,
            Piece::X,
            Piece::Empty,
        ]
    );
    test_board.player_move("b2", "O").unwrap();
    assert_eq!(
        test_board.get_compact_state(),
        [
            Piece::O,
            Piece::Empty,
            Piece::X,
            Piece::Empty,
            Piece::O,
            Piece::Empty,
            Piece::Empty,
            Piece::X,
            Piece::Empty,
        ]
    );
}
