use tictacrs::agents::players::Player;
use tictacrs::agents::trainer::{Trainer, TrainerError};
use tictacrs::annealing::{default_exploration_schedule, default_learning_schedule};
use tictacrs::game::board::{Board, Piece};
use tictacrs::states::HALF;

const E: Piece = Piece::Empty;
const X: Piece = Piece::X;
const O: Piece = Piece::O;

fn fresh_player(piece: Piece) -> Player {
    Player::new(
        piece,
        750_000,
        200_000,
        default_learning_schedule(),
        default_exploration_schedule(),
    )
}

#[test]
fn train_rejects_two_players_of_the_same_side() {
    let mut player1 = fresh_player(X);
    let mut player2 = fresh_player(X);
    let r = Trainer::train(&mut player1, &mut player2, 50);
    assert!(matches!(r, Err(TrainerError::InvalidPlayers)));
    // No episode ran: both players are untouched.
    assert_eq!(player1.get_iteration(), 0);
    assert_eq!(player2.get_iteration(), 0);
    let empty_board: [Piece; 9] = [E, E, E, E, E, E, E, E, E];
    assert_eq!(player1.get_state_value(&empty_board), None);
    assert_eq!(player2.get_state_value(&empty_board), None);
}

#[test]
fn zero_episode_training_saves_fresh_hyperparameters() {
    let mut player1 = fresh_player(X);
    let mut player2 = fresh_player(O);
    let (x_bytes, o_bytes) = Trainer::train(&mut player1, &mut player2, 0).unwrap();
    // Both images hold an empty table: nothing beyond the fixed fields.
    assert_eq!(x_bytes.len(), 25);
    assert_eq!(o_bytes.len(), 25);
    let x_loaded = Player::new_from_bytes(
        &x_bytes,
        default_learning_schedule(),
        default_exploration_schedule(),
    )
    .unwrap();
    let o_loaded = Player::new_from_bytes(
        &o_bytes,
        default_learning_schedule(),
        default_exploration_schedule(),
    )
    .unwrap();
    assert_eq!(x_loaded.get_player_piece(), X);
    assert_eq!(o_loaded.get_player_piece(), O);
    assert_eq!(x_loaded.initial_learning_rate, 750_000);
    assert_eq!(x_loaded.initial_exploration_rate, 200_000);
    assert_eq!(o_loaded.initial_learning_rate, 750_000);
    assert_eq!(o_loaded.initial_exploration_rate, 200_000);
    assert_eq!(x_loaded.get_iteration(), 0);
    assert_eq!(o_loaded.get_iteration(), 0);
}

#[test]
fn training_runs_episodes_and_orders_the_images_by_side() {
    // The second player owns X, so its image must come first.
    let mut player1 = fresh_player(O);
    let mut player2 = fresh_player(X);
    let (x_bytes, o_bytes) = Trainer::train(&mut player1, &mut player2, 5).unwrap();
    let x_loaded = Player::new_from_bytes(
        &x_bytes,
        default_learning_schedule(),
        default_exploration_schedule(),
    )
    .unwrap();
    let o_loaded = Player::new_from_bytes(
        &o_bytes,
        default_learning_schedule(),
        default_exploration_schedule(),
    )
    .unwrap();
    assert_eq!(x_loaded.get_player_piece(), X);
    assert_eq!(o_loaded.get_player_piece(), O);
    assert_eq!(x_loaded.get_iteration(), 4);
    assert_eq!(o_loaded.get_iteration(), 4);
    // The episodes really ran: the first player to move (here the O player)
    // evaluated every one of its opening moves, and the X player's table is
    // populated too.
    for cell in 0..9usize {
        let mut opening: [Piece; 9] = [E, E, E, E, E, E, E, E, E];
        opening[cell] = O;
        assert!(player1.get_state_value(&opening).is_some());
    }
    assert!(x_bytes.len() > 25);
}

#[test]
fn losing_player_marks_its_prior_board_down() {
    // A forced episode: X drives a win down the left column while O answers
    // in the middle column. O's board after its own second move is the
    // position that must be corrected once X wins.
    let mut o_player = fresh_player(O);
    let mut board = Board::new();
    board.make_auto_player_move(0, 0, X);
    board.make_auto_player_move(0, 1, O);
    board.make_auto_player_move(1, 0, X);
    board.make_auto_player_move(1, 1, O);
    let prior_board = board.get_compact_state();
    board.make_auto_player_move(2, 0, X);
    assert_eq!(board.check_winner(), Some(X));
    o_player.show_loosing_state(&prior_board);
    let corrected = o_player.get_state_value(&prior_board).unwrap();
    assert!(corrected < HALF);
    // Exactly the default value moved towards zero by the learning rate:
    // 500000 - 750000 * 500000 / 1000000.
    assert_eq!(corrected, 125_000);
}

#[test]
fn make_move_plays_an_open_cell_and_evaluates_every_candidate() {
    let mut player = fresh_player(X);
    let empty_board: [Piece; 9] = [E, E, E, E, E, E, E, E, E];
    let mv = player.make_move(&empty_board);
    assert!(mv[0] < 3 && mv[1] < 3);
    // Every one-move state was evaluated and recorded at the 0.5 default.
    for cell in 0..9usize {
        let mut state: [Piece; 9] = [E, E, E, E, E, E, E, E, E];
        state[cell] = X;
        assert_eq!(player.get_state_value(&state), Some(HALF));
    }
}

#[test]
fn moves_are_written_the_way_a_person_enters_them() {
    assert_eq!(Player::to_human_move(&[0, 0]), "a1");
    assert_eq!(Player::to_human_move(&[1, 1]), "b2");
    assert_eq!(Player::to_human_move(&[2, 0]), "c1");
    assert_eq!(Player::to_human_move(&[0, 2]), "a3");
}
