//! The self-play training orchestrator: it drives two players against each
//! other for a fixed number of episodes, shows each loser the board it left
//! behind so it can learn from the loss, and hands back both players' save
//! images.

use vstd::prelude::*;

verus! {

use crate::agents::players;
use crate::agents::players::Player;
use crate::game::board::{Board, Piece};
use crate::states;
use crate::states::STATE_COUNT;

/// The self-play training orchestrator.
pub struct Trainer {}

/// Errors of a training run.
#[derive(Debug, PartialEq, Eq, Structural)]
pub enum TrainerError {
    FailedToSave,
    InvalidPlayers,
}

/// Number of empty cells among the first `n` of a compact state.
pub open spec fn count_empty_upto(s: Seq<Piece>, n: int) -> int
    decreases n,
{
    if n <= 0 {
        0
    } else if s[n - 1] == Piece::Empty {
        count_empty_upto(s, n - 1) + 1
    } else {
        count_empty_upto(s, n - 1)
    }
}

/// Number of empty cells of a compact state.
pub open spec fn count_empty(s: Seq<Piece>) -> int {
    count_empty_upto(s, 9)
}

/// Every one-move opening of side `me` from the empty board has a
/// materialized slot in table `t`. A player that has played an episode has
/// at least evaluated all of its possible first moves.
pub open spec fn opening_moves_seen(t: Seq<Option<u64>>, me: Piece) -> bool {
    forall|c: int|
        0 <= c < 9 ==> #[trigger] t[states::state_index(
            states::place(states::empty_state(), c, me),
        )] is Some
}

/// At least one state is materialized in table `t`.
pub open spec fn some_state_seen(t: Seq<Option<u64>>) -> bool {
    exists|j: int| 0 <= j < STATE_COUNT && t[j] is Some
}

/// Placing a marker on an empty cell leaves one empty cell fewer.
proof fn lemma_count_empty_update(s: Seq<Piece>, c: int, p: Piece, n: int)
    requires
        states::valid_state(s),
        0 <= c < 9,
        s[c] == Piece::Empty,
        p != Piece::Empty,
        0 <= n <= 9,
    ensures
        count_empty_upto(s.update(c, p), n) == count_empty_upto(s, n) - (if c < n {
            1int
        } else {
            0int
        }),
    decreases n,
{
    if n > 0 {
        lemma_count_empty_update(s, c, p, n - 1);
    }
}

/// A state that is not full has an empty cell.
proof fn lemma_count_empty_positive(s: Seq<Piece>, n: int)
    requires
        states::valid_state(s),
        0 <= n <= 9,
    ensures
        count_empty_upto(s, n) >= 0,
        forall|c: int| 0 <= c < n && s[c] == Piece::Empty ==> count_empty_upto(s, n) > 0,
    decreases n,
{
    if n > 0 {
        lemma_count_empty_positive(s, n - 1);
    }
}

/// A full state has no empty cell to count.
proof fn lemma_count_empty_full(s: Seq<Piece>, n: int)
    requires
        states::valid_state(s),
        states::full(s),
        0 <= n <= 9,
    ensures
        count_empty_upto(s, n) == 0,
    decreases n,
{
    if n > 0 {
        lemma_count_empty_full(s, n - 1);
    }
}

/// An all-empty state counts one empty cell per cell.
proof fn lemma_count_empty_blank(s: Seq<Piece>, n: int)
    requires
        states::valid_state(s),
        forall|i: int| 0 <= i < 9 ==> s[i] == Piece::Empty,
        0 <= n <= 9,
    ensures
        count_empty_upto(s, n) == n,
    decreases n,
{
    if n > 0 {
        lemma_count_empty_blank(s, n - 1);
    }
}

/// A board holding a single marker has no complete line.
proof fn lemma_single_piece_no_winner(base: Seq<Piece>, c: int, p: Piece)
    requires
        states::valid_state(base),
        forall|i: int| 0 <= i < 9 ==> base[i] == Piece::Empty,
        0 <= c < 9,
    ensures
        states::board_winner(base.update(c, p)) is None,
{
    let s = base.update(c, p);
    assert(forall|i: int| 0 <= i < 9 && i != c ==> s[i] == Piece::Empty);
}

/// A move only adds to a table: whatever openings or states were already
/// materialized before it stay materialized after it.
proof fn lemma_move_preserves_seen(
    t1: Seq<Option<u64>>,
    t2: Seq<Option<u64>>,
    s: Seq<Piece>,
    me: Piece,
    lr: u64,
    q: Piece,
)
    requires
        t1.len() == STATE_COUNT,
        states::valid_state(s),
        t2 == players::greedy_updated_table(t1, s, me, lr) || t2 == players::materialize_cands(
            t1,
            s,
            me,
        ),
    ensures
        opening_moves_seen(t1, q) ==> opening_moves_seen(t2, q),
        some_state_seen(t1) ==> some_state_seen(t2),
{
    states::lemma_state_index_range(s);
    assert forall|j: int| 0 <= j < STATE_COUNT && t1[j] is Some implies #[trigger] t2[j]
        is Some by {
        assert(players::materialize_cands(t1, s, me)[j] is Some);
    }
    if opening_moves_seen(t1, q) {
        assert forall|c: int|
            0 <= c < 9 implies #[trigger] t2[states::state_index(
            states::place(states::empty_state(), c, q),
        )] is Some by {
            states::lemma_state_index_range(states::place(states::empty_state(), c, q));
        }
    }
    if some_state_seen(t1) {
        let j = choose|j: int| 0 <= j < STATE_COUNT && t1[j] is Some;
        assert(t2[j] is Some);
    }
}

/// A loss correction writes one slot with a value: the corrected state is
/// materialized afterwards, and everything already materialized stays.
proof fn lemma_correction_preserves_seen(
    t1: Seq<Option<u64>>,
    t2: Seq<Option<u64>>,
    s: Seq<Piece>,
    v: u64,
    q: Piece,
)
    requires
        t1.len() == STATE_COUNT,
        states::valid_state(s),
        t2 == t1.update(states::state_index(s), Some(v)),
    ensures
        opening_moves_seen(t1, q) ==> opening_moves_seen(t2, q),
        some_state_seen(t2),
{
    states::lemma_state_index_range(s);
    assert(t2[states::state_index(s)] is Some);
    if opening_moves_seen(t1, q) {
        assert forall|c: int|
            0 <= c < 9 implies #[trigger] t2[states::state_index(
            states::place(states::empty_state(), c, q),
        )] is Some by {
            states::lemma_state_index_range(states::place(states::empty_state(), c, q));
        }
    }
}

/// A move from the empty board evaluates every opening reply, so all nine
/// one-move successors of the empty board end up materialized.
proof fn lemma_move_covers_openings(t1: Seq<Option<u64>>, t2: Seq<Option<u64>>, me: Piece, lr: u64)
    requires
        t1.len() == STATE_COUNT,
        t2 == players::greedy_updated_table(t1, states::empty_state(), me, lr) || t2
            == players::materialize_cands(t1, states::empty_state(), me),
    ensures
        opening_moves_seen(t2, me),
{
    let e = states::empty_state();
    states::lemma_state_index_range(e);
    assert forall|c: int|
        0 <= c < 9 implies #[trigger] t2[states::state_index(states::place(e, c, me))] is Some by {
        let pl = states::place(e, c, me);
        states::lemma_state_index_range(pl);
        let j = states::state_index(pl);
        assert(e[c] == Piece::Empty);
        assert(players::is_cand_index_upto(e, me, j, 9));
        assert(players::materialize_cands(t1, e, me)[j] is Some);
    }
}

/// A move from a board with room left materializes at least one state.
#[verifier::rlimit(100)]
proof fn lemma_move_covers_something(
    t1: Seq<Option<u64>>,
    t2: Seq<Option<u64>>,
    s: Seq<Piece>,
    me: Piece,
    lr: u64,
)
    requires
        t1.len() == STATE_COUNT,
        states::valid_state(s),
        !states::full(s),
        t2 == players::greedy_updated_table(t1, s, me, lr) || t2 == players::materialize_cands(
            t1,
            s,
            me,
        ),
    ensures
        some_state_seen(t2),
{
    states::lemma_state_index_range(s);
    assert(exists|c: int| 0 <= c < 9 && s[c] == Piece::Empty);
    let c = choose|c: int| 0 <= c < 9 && s[c] == Piece::Empty;
    let pl = states::place(s, c, me);
    states::lemma_state_index_range(pl);
    let j = states::state_index(pl);
    assert(players::is_cand_index_upto(s, me, j, 9));
    assert(players::materialize_cands(t1, s, me)[j] is Some);
    assert(t2[j] is Some);
}

impl Trainer {
    /// Train both players for `iterations` self-play episodes and return
    /// their save images, the X player's first. The players must own
    /// different sides; otherwise nothing runs and nothing changes. A run
    /// with at least one episode really plays: the first player comes out
    /// with every opening move of its side evaluated, and the second with a
    /// populated table.
    #[verifier::rlimit(100)]
    pub fn train(player1: &mut Player, player2: &mut Player, iterations: u32) -> (r: Result<
        (Vec<u8>, Vec<u8>),
        TrainerError,
    >)
        requires
            old(player1).wf(),
            old(player2).wf(),
        ensures
            final(player1).wf(),
            final(player2).wf(),
            final(player1).piece == old(player1).piece,
            final(player2).piece == old(player2).piece,
            final(player1).initial_learning_rate == old(player1).initial_learning_rate,
            final(player1).initial_exploration_rate == old(player1).initial_exploration_rate,
            final(player1).learning_schedule == old(player1).learning_schedule,
            final(player1).exploration_schedule == old(player1).exploration_schedule,
            final(player2).initial_learning_rate == old(player2).initial_learning_rate,
            final(player2).initial_exploration_rate == old(player2).initial_exploration_rate,
            final(player2).learning_schedule == old(player2).learning_schedule,
            final(player2).exploration_schedule == old(player2).exploration_schedule,
            r is Err <==> old(player1).piece == old(player2).piece,
            r is Err ==> r->Err_0 == TrainerError::InvalidPlayers && *final(player1) == *old(player1) && *final(player2) == *old(player2),
            r is Ok ==> (if final(player1).piece == Piece::X {
                r->Ok_0.0@ == crate::codec::encode_save(final(player1).save_data())
                    && r->Ok_0.1@ == crate::codec::encode_save(final(player2).save_data())
            } else {
                r->Ok_0.0@ == crate::codec::encode_save(final(player2).save_data())
                    && r->Ok_0.1@ == crate::codec::encode_save(final(player1).save_data())
            }),
            r is Ok && iterations > 0 ==> final(player1).iteration == iterations - 1 && final(player2).iteration == iterations - 1,
            r is Ok && iterations > 0 ==> opening_moves_seen(
                final(player1).state_space@,
                old(player1).piece,
            ) && some_state_seen(final(player2).state_space@),
            r is Ok && iterations == 0 ==> final(player1).state_space@ == old(player1).state_space@ && final(player2).state_space@ == old(player2).state_space@ && final(player1).iteration == old(player1).iteration && final(player2).iteration == old(player2).iteration,
    {
        if player1.get_player_piece() == player2.get_player_piece() {
            return Err(TrainerError::InvalidPlayers);
        }
        let mut training_board: Board = Board::new();
        let mut it: u32 = 0;
        while it < iterations
            invariant
                player1.wf(),
                player2.wf(),
                player1.piece == old(player1).piece,
                player2.piece == old(player2).piece,
                player1.piece != player2.piece,
                player1.initial_learning_rate == old(player1).initial_learning_rate,
                player1.initial_exploration_rate == old(player1).initial_exploration_rate,
                player1.learning_schedule == old(player1).learning_schedule,
                player1.exploration_schedule == old(player1).exploration_schedule,
                player2.initial_learning_rate == old(player2).initial_learning_rate,
                player2.initial_exploration_rate == old(player2).initial_exploration_rate,
                player2.learning_schedule == old(player2).learning_schedule,
                player2.exploration_schedule == old(player2).exploration_schedule,
                it <= iterations,
                it == 0 ==> player1.state_space@ == old(player1).state_space@
                    && player2.state_space@ == old(player2).state_space@ && player1.iteration
                    == old(player1).iteration && player2.iteration == old(player2).iteration,
                it > 0 ==> player1.iteration == it - 1 && player2.iteration == it - 1,
                it > 0 ==> opening_moves_seen(player1.state_space@, old(player1).piece)
                    && some_state_seen(player2.state_space@),
            decreases iterations - it,
        {
            training_board.clear_board();
            // Point both players at the current episode.
            player1.update_iteration(it);
            player2.update_iteration(it);
            // The board each player saw right after its own previous move,
            // shown to it as a losing position if the opponent then wins.
            let mut prev_board1: [Piece; 9] = [Piece::Empty; 9];
            let mut prev_board2: [Piece; 9] = [Piece::Empty; 9];
            proof {
                assert(!states::terminal(prev_board1@));
                assert(!states::terminal(prev_board2@));
                assert(!states::terminal(training_board@));
                lemma_count_empty_blank(training_board@, 9);
            }
            loop
                invariant_except_break
                    player1.wf(),
                    player2.wf(),
                    player1.piece == old(player1).piece,
                    player2.piece == old(player2).piece,
                    player1.piece != player2.piece,
                    player1.initial_learning_rate == old(player1).initial_learning_rate,
                    player1.initial_exploration_rate == old(player1).initial_exploration_rate,
                    player1.learning_schedule == old(player1).learning_schedule,
                    player1.exploration_schedule == old(player1).exploration_schedule,
                    player2.initial_learning_rate == old(player2).initial_learning_rate,
                    player2.initial_exploration_rate == old(player2).initial_exploration_rate,
                    player2.learning_schedule == old(player2).learning_schedule,
                    player2.exploration_schedule == old(player2).exploration_schedule,
                    player1.iteration == it,
                    player2.iteration == it,
                    states::winner(training_board@) is None,
                    !states::full(training_board@),
                    !states::terminal(prev_board1@),
                    !states::terminal(prev_board2@),
                    // Either the episode has not started, or both players
                    // have moved at least once and their tables show it.
                    count_empty(training_board@) <= 7 || (forall|i: int|
                        0 <= i < 9 ==> training_board@[i] == Piece::Empty),
                    count_empty(training_board@) <= 7 ==> opening_moves_seen(
                        player1.state_space@,
                        old(player1).piece,
                    ) && some_state_seen(player2.state_space@),
                ensures
                    player1.wf(),
                    player2.wf(),
                    player1.piece == old(player1).piece,
                    player2.piece == old(player2).piece,
                    player1.piece != player2.piece,
                    player1.initial_learning_rate == old(player1).initial_learning_rate,
                    player1.initial_exploration_rate == old(player1).initial_exploration_rate,
                    player1.learning_schedule == old(player1).learning_schedule,
                    player1.exploration_schedule == old(player1).exploration_schedule,
                    player2.initial_learning_rate == old(player2).initial_learning_rate,
                    player2.initial_exploration_rate == old(player2).initial_exploration_rate,
                    player2.learning_schedule == old(player2).learning_schedule,
                    player2.exploration_schedule == old(player2).exploration_schedule,
                    player1.iteration == it,
                    player2.iteration == it,
                    opening_moves_seen(player1.state_space@, old(player1).piece),
                    some_state_seen(player2.state_space@),
                decreases count_empty(training_board@),
            {
                let ghost head_board = training_board@;
                let ghost fresh: bool = forall|i: int|
                    0 <= i < 9 ==> head_board[i] == Piece::Empty;
                // The first player moves.
                let ghost t1_before = player1.state_space@;
                let ghost clr1 = player1.current_learning_rate();
                let state1 = training_board.get_compact_state();
                let p1_move = player1.make_move(&state1);
                let ghost cell1 = 3 * (p1_move[0] as int) + (p1_move[1] as int);
                proof {
                    lemma_count_empty_positive(training_board@, 9);
                    lemma_count_empty_update(training_board@, cell1, player1.piece, 9);
                    if fresh {
                        lemma_count_empty_blank(head_board, 9);
                        assert(state1@ =~= states::empty_state());
                        lemma_move_covers_openings(
                            t1_before,
                            player1.state_space@,
                            player1.piece,
                            clr1,
                        );
                    } else {
                        lemma_move_preserves_seen(
                            t1_before,
                            player1.state_space@,
                            state1@,
                            player1.piece,
                            clr1,
                            player1.piece,
                        );
                    }
                    assert(opening_moves_seen(player1.state_space@, old(player1).piece));
                    assert(!fresh ==> some_state_seen(player2.state_space@));
                }
                training_board.make_auto_player_move(
                    p1_move[0],
                    p1_move[1],
                    player1.get_player_piece(),
                );
                // If there is a winner, the first player made it: show the
                // second player the position it left behind.
                if let Some(_) = training_board.check_winner() {
                    proof {
                        // A lone opening piece cannot have won: in the
                        // episode's first pass this branch is unreachable.
                        if fresh {
                            lemma_single_piece_no_winner(head_board, cell1, player1.piece);
                        }
                    }
                    let ghost t2_before = player2.state_space@;
                    let ghost clr2 = player2.current_learning_rate();
                    player2.show_loosing_state(&prev_board2);
                    proof {
                        lemma_correction_preserves_seen(
                            t2_before,
                            player2.state_space@,
                            prev_board2@,
                            crate::values::td_value(
                                crate::values::stored_or_default(
                                    t2_before,
                                    prev_board2@,
                                    player2.piece,
                                ),
                                0,
                                clr2,
                            ) as u64,
                            player2.piece,
                        );
                    }
                    break ;
                }
                if training_board.is_full() {
                    proof {
                        // One opening piece leaves eight open cells: in the
                        // episode's first pass this branch is unreachable.
                        if fresh {
                            lemma_count_empty_full(training_board@, 9);
                        }
                    }
                    break ;
                }
                prev_board1 = training_board.get_compact_state();
                // The second player moves.
                let ghost t2_before = player2.state_space@;
                let ghost clr2 = player2.current_learning_rate();
                let state2 = training_board.get_compact_state();
                let p2_move = player2.make_move(&state2);
                let ghost cell2 = 3 * (p2_move[0] as int) + (p2_move[1] as int);
                proof {
                    lemma_count_empty_positive(training_board@, 9);
                    lemma_count_empty_update(training_board@, cell2, player2.piece, 9);
                    lemma_move_covers_something(
                        t2_before,
                        player2.state_space@,
                        state2@,
                        player2.piece,
                        clr2,
                    );
                    assert(some_state_seen(player2.state_space@));
                }
                training_board.make_auto_player_move(
                    p2_move[0],
                    p2_move[1],
                    player2.get_player_piece(),
                );
                if let Some(_) = training_board.check_winner() {
                    let ghost t1_corr = player1.state_space@;
                    let ghost clr1b = player1.current_learning_rate();
                    player1.show_loosing_state(&prev_board1);
                    proof {
                        lemma_correction_preserves_seen(
                            t1_corr,
                            player1.state_space@,
                            prev_board1@,
                            crate::values::td_value(
                                crate::values::stored_or_default(
                                    t1_corr,
                                    prev_board1@,
                                    player1.piece,
                                ),
                                0,
                                clr1b,
                            ) as u64,
                            player1.piece,
                        );
                    }
                    break ;
                }
                if training_board.is_full() {
                    break ;
                }
                prev_board2 = training_board.get_compact_state();
            }
            it += 1;
        }
        let bytes1 = player1.to_save_bytes();
        let bytes2 = player2.to_save_bytes();
        if player1.get_player_piece() == Piece::X {
            Ok((bytes1, bytes2))
        } else {
            Ok((bytes2, bytes1))
        }
    }
}

} // verus!
