use tictacrs::agents::players::{Player, PlayerError};
use tictacrs::annealing::{default_exploration_schedule, default_learning_schedule};
use tictacrs::game::board::Piece;
use tictacrs::states::HALF;

const E: Piece = Piece::Empty;
const X: Piece = Piece::X;
const O: Piece = Piece::O;

fn fresh_player(piece: Piece) -> Player {
    Player::new(
        piece,
        750_000,
        200_000,
        default_learning_schedule(),
        default_exploration_schedule(),
    )
}

#[test]
fn save_and_load_reproduce_the_player() {
    let mut player = fresh_player(X);
    // Populate the table: a default entry, an overridden entry, and a
    // terminal entry.
    let opening: [Piece; 9] = [X, E, E, E, E, E, E, E, E];
    let middle: [Piece; 9] = [X, O, E, E, X, E, E, E, E];
    let won: [Piece; 9] = [X, X, X, O, O, E, E, E, E];
    assert_eq!(player.state_space.evaluate(&opening, X), HALF);
    player.state_space.set(&middle, 642_000);
    assert_eq!(player.state_space.evaluate(&won, X), 1_000_000);
    player.update_iteration(37);

    let bytes = player.to_save_bytes();
    let loaded = Player::new_from_bytes(
        &bytes,
        default_learning_schedule(),
        default_exploration_schedule(),
    )
    .unwrap();

    assert_eq!(loaded.get_player_piece(), X);
    assert_eq!(loaded.get_iteration(), 37);
    assert_eq!(loaded.initial_learning_rate, 750_000);
    assert_eq!(loaded.initial_exploration_rate, 200_000);
    assert_eq!(loaded.get_state_value(&opening), Some(HALF));
    assert_eq!(loaded.get_state_value(&middle), Some(642_000));
    assert_eq!(loaded.get_state_value(&won), Some(1_000_000));
    // An untouched state stays unseen.
    let untouched: [Piece; 9] = [O, E, E, E, E, E, E, E, E];
    assert_eq!(loaded.get_state_value(&untouched), None);
    // Saving the loaded player yields the identical image.
    assert_eq!(loaded.to_save_bytes(), bytes);
}

#[test]
fn empty_player_saves_to_the_bare_image() {
    let player = fresh_player(O);
    let bytes = player.to_save_bytes();
    // Side byte, entry count, two rates, and the iteration counter: no
    // entries at all.
    assert_eq!(bytes.len(), 25);
    let loaded = Player::new_from_bytes(
        &bytes,
        default_learning_schedule(),
        default_exploration_schedule(),
    )
    .unwrap();
    assert_eq!(loaded.get_player_piece(), O);
    let empty_board: [Piece; 9] = [E, E, E, E, E, E, E, E, E];
    assert_eq!(loaded.get_state_value(&empty_board), None);
}

#[test]
fn empty_bytes_fail_to_decode() {
    let r = Player::new_from_bytes(
        &[],
        default_learning_schedule(),
        default_exploration_schedule(),
    );
    assert!(matches!(r, Err(PlayerError::UnableToRead)));
}

#[test]
fn unknown_side_byte_fails_to_decode() {
    let player = fresh_player(X);
    let mut bytes = player.to_save_bytes();
    bytes[0] = 7;
    let r = Player::new_from_bytes(
        &bytes,
        default_learning_schedule(),
        default_exploration_schedule(),
    );
    assert!(matches!(r, Err(PlayerError::UnableToRead)));
}

#[test]
fn truncated_image_fails_to_decode() {
    let mut player = fresh_player(X);
    let opening: [Piece; 9] = [X, E, E, E, E, E, E, E, E];
    assert_eq!(player.state_space.evaluate(&opening, X), HALF);
    let bytes = player.to_save_bytes();
    let r = Player::new_from_bytes(
        &bytes[..bytes.len() - 1],
        default_learning_schedule(),
        default_exploration_schedule(),
    );
    assert!(matches!(r, Err(PlayerError::UnableToRead)));
}

#[test]
fn corrupt_key_byte_fails_to_decode() {
    let mut player = fresh_player(X);
    let opening: [Piece; 9] = [X, E, E, E, E, E, E, E, E];
    assert_eq!(player.state_space.evaluate(&opening, X), HALF);
    let mut bytes = player.to_save_bytes();
    // The first entry's key starts right after the header.
    bytes[5] = 9;
    let r = Player::new_from_bytes(
        &bytes,
        default_learning_schedule(),
        default_exploration_schedule(),
    );
    assert!(matches!(r, Err(PlayerError::UnableToRead)));
}
