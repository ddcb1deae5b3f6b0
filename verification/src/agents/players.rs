//! The learning player: an epsilon-greedy policy over a lazily populated
//! value table, temporal-difference updates after greedy moves, and a
//! correction path for games the player lost.

use vstd::prelude::*;

verus! {

use crate::annealing::Schedule;
use crate::game::board::Piece;
use crate::states;
use crate::states::{SCALE, STATE_COUNT, valid_state};
use crate::values;
use crate::values::{ValueTable, stored_or_default, td_value, wf_table};

/// rand's small generator, held opaquely as each player's private source of
/// randomness.
#[verifier::external_type_specification]
#[verifier::external_body]
pub struct ExSmallRng(rand::rngs::SmallRng);

/// Relies on rand's `SeedableRng::from_entropy` to seed a fresh small
/// generator from the operating system. Nothing is assumed about the
/// values it will produce.
#[verifier::external_body]
fn fresh_generator() -> rand::rngs::SmallRng {
    <rand::rngs::SmallRng as rand::SeedableRng>::from_entropy()
}

/// Relies on rand's `Rng::gen_range` over a half-open range, which panics
/// only when the range is empty and otherwise returns a value of the range;
/// which value comes back is not assumed.
#[verifier::external_body]
fn draw_below(generator: &mut rand::rngs::SmallRng, bound: u64) -> (r: u64)
    requires
        bound > 0,
    ensures
        r < bound,
{
    rand::Rng::gen_range(generator, 0..bound)
}

/// Errors of loading or saving a player.
#[derive(Debug, PartialEq, Eq, Structural)]
pub enum PlayerError {
    InvalidFile,
    UnableToSave,
    UnableToRead,
}

/// Legal next moves from a state, with the evaluated win probability of the
/// state each move leads to.
pub struct PotentialMoves {
    /// Row and column of each possible next move, in cell order.
    pub next_moves: Vec<[u8; 2]>,
    /// Win probability of the state each move leads to.
    pub probabilities: Vec<u64>,
}

/// Cells among the first `n` of `s` that are empty, in cell order.
pub open spec fn empty_cells_upto(s: Seq<Piece>, n: int) -> Seq<int>
    decreases n,
{
    if n <= 0 {
        Seq::empty()
    } else if s[n - 1] == Piece::Empty {
        empty_cells_upto(s, n - 1).push(n - 1)
    } else {
        empty_cells_upto(s, n - 1)
    }
}

/// Empty cells of `s`, in cell order: the moves open to either player.
pub open spec fn empty_cells(s: Seq<Piece>) -> Seq<int> {
    empty_cells_upto(s, 9)
}

/// Value of the move on `cell` for the player owning `me`: the looked-up
/// value of the state reached by placing `me` there.
pub open spec fn cand_value(t: Seq<Option<u64>>, s: Seq<Piece>, cell: int, me: Piece) -> u64 {
    stored_or_default(t, states::place(s, cell, me), me)
}

/// Values of all moves open from `s`, in cell order.
pub open spec fn cand_probs(t: Seq<Option<u64>>, s: Seq<Piece>, me: Piece) -> Seq<u64> {
    empty_cells(s).map_values(|cell: int| cand_value(t, s, cell, me))
}

/// Largest element of `p`, taking zero as the floor.
pub open spec fn seq_max(p: Seq<u64>) -> u64
    decreases p.len(),
{
    if p.len() == 0 {
        0
    } else {
        let m = seq_max(p.drop_last());
        if p.last() > m {
            p.last()
        } else {
            m
        }
    }
}

/// The greedy target: the highest value among the moves open from `s`.
pub open spec fn max_cand_value(t: Seq<Option<u64>>, s: Seq<Piece>, me: Piece) -> u64 {
    seq_max(cand_probs(t, s, me))
}

/// Whether `j` indexes a state reachable from `s` by placing `me` on an
/// empty cell among the first `n`.
pub open spec fn is_cand_index_upto(s: Seq<Piece>, me: Piece, j: int, n: int) -> bool {
    exists|cell: int|
        0 <= cell < n && s[cell] == Piece::Empty && j == states::state_index(
            states::place(s, cell, me),
        )
}

/// Whether `j` indexes a state reachable from `s` by one move of `me`.
pub open spec fn is_cand_index(s: Seq<Piece>, me: Piece, j: int) -> bool {
    is_cand_index_upto(s, me, j, 9)
}

/// The table after lazily materializing the states reachable from `s` by
/// placing `me` on an empty cell among the first `n`: unseen reachable
/// states get their default value, everything else is untouched.
pub open spec fn materialize_upto(
    t: Seq<Option<u64>>,
    s: Seq<Piece>,
    me: Piece,
    n: int,
) -> Seq<Option<u64>> {
    Seq::new(
        t.len(),
        |j: int|
            if t[j] is None && is_cand_index_upto(s, me, j, n) {
                Some(states::default_value(states::state_of_index(j), me))
            } else {
                t[j]
            },
    )
}

/// The table after evaluating every move open from `s`.
pub open spec fn materialize_cands(t: Seq<Option<u64>>, s: Seq<Piece>, me: Piece) -> Seq<
    Option<u64>,
> {
    materialize_upto(t, s, me, 9)
}

/// The table after a greedy move from `s`: every open move evaluated, and
/// the value of `s` itself moved towards the best of them by the learning
/// rate `lr`.
pub open spec fn greedy_updated_table(
    t: Seq<Option<u64>>,
    s: Seq<Piece>,
    me: Piece,
    lr: u64,
) -> Seq<Option<u64>> {
    materialize_cands(t, s, me).update(
        states::state_index(s),
        Some(td_value(stored_or_default(t, s, me), max_cand_value(t, s, me), lr) as u64),
    )
}

/// Whether the move `mv` plays on cell `cell`.
pub open spec fn move_on_cell(mv: [u8; 2], cell: int) -> bool {
    mv[0] == cell / 3 && mv[1] == cell % 3
}

/// A greedy choice: an open move whose value is the greedy target.
pub open spec fn greedy_cell(t: Seq<Option<u64>>, s: Seq<Piece>, me: Piece, cell: int) -> bool {
    &&& 0 <= cell < 9
    &&& s[cell] == Piece::Empty
    &&& cand_value(t, s, cell, me) == max_cand_value(t, s, me)
}

/// An exploratory choice: an open move of strictly sub-maximal value, or
/// any open move when no sub-maximal one exists.
pub open spec fn exploratory_cell(
    t: Seq<Option<u64>>,
    s: Seq<Piece>,
    me: Piece,
    cell: int,
) -> bool {
    &&& 0 <= cell < 9
    &&& s[cell] == Piece::Empty
    &&& (cand_value(t, s, cell, me) < max_cand_value(t, s, me) || (forall|c: int|
        0 <= c < 9 && s[c] == Piece::Empty ==> #[trigger] cand_value(t, s, c, me) == max_cand_value(
            t,
            s,
            me,
        )))
}

/// `mv` is listed among the potential moves with probability exactly `hi`.
pub open spec fn listed_with_value(nm: Seq<[u8; 2]>, pr: Seq<u64>, mv: [u8; 2], hi: u64) -> bool {
    exists|k: int| 0 <= k < nm.len() && nm[k] == mv && pr[k] == hi
}

/// `mv` is listed among the potential moves with probability below `hi`.
pub open spec fn listed_below_value(nm: Seq<[u8; 2]>, pr: Seq<u64>, mv: [u8; 2], hi: u64) -> bool {
    exists|k: int| 0 <= k < nm.len() && nm[k] == mv && pr[k] < hi
}

/// The empty cells among the first `n` are exactly the members of
/// `empty_cells_upto(s, n)`, listed in range and in cell order.
pub proof fn lemma_empty_cells_upto_props(s: Seq<Piece>, n: int)
    requires
        valid_state(s),
        0 <= n <= 9,
    ensures
        forall|k: int|
            0 <= k < empty_cells_upto(s, n).len() ==> 0 <= #[trigger] empty_cells_upto(s, n)[k] < n
                && s[empty_cells_upto(s, n)[k]] == Piece::Empty,
        forall|c: int| 0 <= c < n && s[c] == Piece::Empty ==> empty_cells_upto(s, n).contains(c),
    decreases n,
{
    if n > 0 {
        lemma_empty_cells_upto_props(s, n - 1);
        assert forall|c: int| 0 <= c < n && s[c] == Piece::Empty implies empty_cells_upto(
            s,
            n,
        ).contains(c) by {
            if c < n - 1 {
                let k = choose|k: int|
                    0 <= k < empty_cells_upto(s, n - 1).len() && #[trigger] empty_cells_upto(
                        s,
                        n - 1,
                    )[k] == c;
                assert(empty_cells_upto(s, n)[k] == c);
            } else {
                assert(empty_cells_upto(s, n).last() == c);
            }
        }
    }
}

/// Every element of `p` lies below `seq_max(p)`.
pub proof fn lemma_seq_max_ge(p: Seq<u64>)
    ensures
        forall|k: int| 0 <= k < p.len() ==> p[k] <= seq_max(p),
    decreases p.len(),
{
    if p.len() > 0 {
        lemma_seq_max_ge(p.drop_last());
        assert forall|k: int| 0 <= k < p.len() implies p[k] <= seq_max(p) by {
            if k < p.len() - 1 {
                assert(p.drop_last()[k] == p[k]);
            }
        }
    }
}

/// `seq_max` never exceeds a bound that every element respects.
pub proof fn lemma_seq_max_le(p: Seq<u64>, b: u64)
    requires
        forall|k: int| 0 <= k < p.len() ==> p[k] <= b,
    ensures
        seq_max(p) <= b,
    decreases p.len(),
{
    if p.len() > 0 {
        assert forall|k: int| 0 <= k < p.drop_last().len() implies p.drop_last()[k] <= b by {
            assert(p.drop_last()[k] == p[k]);
        }
        lemma_seq_max_le(p.drop_last(), b);
    }
}

/// Placing a marker on two different empty cells, or on none, yields
/// pairwise distinct table indices.
#[verifier::rlimit(100)]
pub proof fn lemma_place_indices_distinct(s: Seq<Piece>, me: Piece, c1: int, c2: int)
    requires
        valid_state(s),
        me != Piece::Empty,
        0 <= c1 < 9,
        s[c1] == Piece::Empty,
        0 <= c2 < 9,
    ensures
        states::state_index(states::place(s, c1, me)) != states::state_index(s),
        c1 != c2 && s[c2] == Piece::Empty ==> states::state_index(states::place(s, c1, me))
            != states::state_index(states::place(s, c2, me)),
{
    let p1 = states::place(s, c1, me);
    if states::state_index(p1) == states::state_index(s) {
        states::lemma_state_index_injective(p1, s);
        assert(p1[c1] == me);
    }
    if c1 != c2 && s[c2] == Piece::Empty {
        let p2 = states::place(s, c2, me);
        if states::state_index(p1) == states::state_index(p2) {
            states::lemma_state_index_injective(p1, p2);
            assert(p1[c2] == s[c2]);
            assert(p2[c2] == me);
        }
    }
}

/// A state's own slot is never touched by materializing its candidate
/// moves, so looking the state up afterwards yields the same value.
pub proof fn lemma_materialize_keeps_self(t: Seq<Option<u64>>, s: Seq<Piece>, me: Piece, n: int)
    requires
        t.len() == STATE_COUNT,
        valid_state(s),
        me != Piece::Empty,
        0 <= n <= 9,
    ensures
        materialize_upto(t, s, me, n)[states::state_index(s)] == t[states::state_index(s)],
        stored_or_default(materialize_upto(t, s, me, n), s, me) == stored_or_default(t, s, me),
{
    states::lemma_state_index_range(s);
    let j = states::state_index(s);
    if is_cand_index_upto(s, me, j, n) {
        let cell = choose|cell: int|
            0 <= cell < n && s[cell] == Piece::Empty && j == states::state_index(
                states::place(s, cell, me),
            );
        lemma_place_indices_distinct(s, me, cell, cell);
    }
}

/// The computer player: a side, a value table, annealed learning and
/// exploration rates, and a private random generator.
pub struct Player {
    /// Which piece the player plays.
    pub piece: Piece,
    /// The states seen so far and the probability of winning from each.
    pub state_space: ValueTable,
    /// Learning rate before annealing.
    pub initial_learning_rate: u64,
    /// Exploration rate before annealing.
    pub initial_exploration_rate: u64,
    /// Current training episode, set by the trainer.
    pub iteration: u32,
    /// How the learning rate decays over iterations.
    pub learning_schedule: Schedule,
    /// How the exploration rate decays over iterations.
    pub exploration_schedule: Schedule,
    /// Random source for exploration and tie breaking.
    pub generator: rand::rngs::SmallRng,
}

impl Player {
    /// A well-formed player owns a real side, a well-formed table, rates
    /// within scale and usable schedules.
    pub open spec fn wf(&self) -> bool {
        &&& self.piece != Piece::Empty
        &&& wf_table(self.state_space@, self.piece)
        &&& self.initial_learning_rate <= SCALE
        &&& self.initial_exploration_rate <= SCALE
        &&& self.learning_schedule.wf()
        &&& self.exploration_schedule.wf()
    }

    /// Everything but the value table and the generator agrees between two
    /// player states.
    pub open spec fn same_profile(a: &Player, b: &Player) -> bool {
        &&& a.piece == b.piece
        &&& a.initial_learning_rate == b.initial_learning_rate
        &&& a.initial_exploration_rate == b.initial_exploration_rate
        &&& a.iteration == b.iteration
        &&& a.learning_schedule == b.learning_schedule
        &&& a.exploration_schedule == b.exploration_schedule
    }

    /// The learning rate the player would use right now.
    pub open spec fn current_learning_rate(&self) -> u64 {
        self.learning_schedule.rate_spec(self.initial_learning_rate, self.iteration) as u64
    }

    /// The savable part of the player: everything but the schedules and the
    /// generator.
    pub open spec fn save_data(&self) -> crate::codec::SaveData {
        crate::codec::SaveData {
            piece: self.piece,
            table: self.state_space@,
            learning: self.initial_learning_rate,
            exploration: self.initial_exploration_rate,
            iteration: self.iteration,
        }
    }

    /// Create a fresh player for a side, with an empty table.
    pub fn new(
        piece: Piece,
        initial_learning_rate: u64,
        initial_exploration_rate: u64,
        learning_schedule: Schedule,
        exploration_schedule: Schedule,
    ) -> (p: Player)
        requires
            piece != Piece::Empty,
            initial_learning_rate <= SCALE,
            initial_exploration_rate <= SCALE,
            learning_schedule.wf(),
            exploration_schedule.wf(),
        ensures
            p.wf(),
            p.piece == piece,
            p.initial_learning_rate == initial_learning_rate,
            p.initial_exploration_rate == initial_exploration_rate,
            p.iteration == 0,
            p.learning_schedule == learning_schedule,
            p.exploration_schedule == exploration_schedule,
            p.state_space@.len() == STATE_COUNT,
            forall|i: int| 0 <= i < STATE_COUNT ==> p.state_space@[i] is None,
    {
        Player {
            piece,
            state_space: ValueTable::new(),
            initial_learning_rate,
            initial_exploration_rate,
            iteration: 0,
            learning_schedule,
            exploration_schedule,
            generator: fresh_generator(),
        }
    }

    /// Which piece the player plays.
    pub fn get_player_piece(&self) -> (p: Piece)
        ensures
            p == self.piece,
    {
        self.piece
    }

    /// The current training episode.
    pub fn get_iteration(&self) -> (i: u32)
        ensures
            i == self.iteration,
    {
        self.iteration
    }

    /// Point the annealing schedules at a new episode.
    pub fn update_iteration(&mut self, new_iter: u32)
        ensures
            final(self).iteration == new_iter,
            final(self).piece == old(self).piece,
            final(self).state_space@ == old(self).state_space@,
            final(self).initial_learning_rate == old(self).initial_learning_rate,
            final(self).initial_exploration_rate == old(self).initial_exploration_rate,
            final(self).learning_schedule == old(self).learning_schedule,
            final(self).exploration_schedule == old(self).exploration_schedule,
            old(self).wf() ==> final(self).wf(),
    {
        self.iteration = new_iter;
    }

    /// The stored value of a state, if the player has seen it.
    pub fn get_state_value(&self, compact_state: &[Piece; 9]) -> (r: Option<u64>)
        requires
            self.state_space@.len() == STATE_COUNT,
        ensures
            r == self.state_space@[states::state_index(compact_state@)],
    {
        self.state_space.lookup(compact_state)
    }

    /// Winner of a compact state, if any: rows, then columns, then
    /// diagonals.
    pub fn check_winner(compact_state: &[Piece; 9]) -> (r: Option<Piece>)
        ensures
            r == states::winner(compact_state@),
    {
        states::winner_of(compact_state)
    }

    /// Winner of a compact state by columns, if any.
    pub fn check_winner_col(compact_state: &[Piece; 9]) -> (r: Option<Piece>)
        ensures
            r == states::col_winner(compact_state@),
    {
        states::col_winner_of(compact_state)
    }

    /// Winner of a compact state by rows, if any.
    pub fn check_winner_row(compact_state: &[Piece; 9]) -> (r: Option<Piece>)
        ensures
            r == states::row_winner(compact_state@),
    {
        states::row_winner_of(compact_state)
    }

    /// Winner of a compact state by diagonals, if any.
    pub fn check_winner_diag(compact_state: &[Piece; 9]) -> (r: Option<Piece>)
        ensures
            r == states::diag_winner(compact_state@),
    {
        states::diag_winner_of(compact_state)
    }

    /// Whether a compact state has no empty cell left.
    pub fn check_full(compact_state: &[Piece; 9]) -> (r: bool)
        ensures
            r == states::full(compact_state@),
    {
        states::full_of(compact_state)
    }

    /// The winning probability this player assigns to a previously unseen
    /// state.
    pub fn find_new_state_prob(&self, compact_state: &[Piece; 9]) -> (r: u64)
        ensures
            r == states::default_value(compact_state@, self.piece),
    {
        states::default_of(compact_state, self.piece)
    }

    /// The move written the way a person enters it: row letter, column
    /// digit.
    pub fn to_human_move(m: &[u8; 2]) -> (s: String)
        requires
            m[0] < 3,
            m[1] < 3,
        ensures
            s@.len() == 2,
            s@[0] == states::human_row_char(m[0] as int),
            s@[1] == states::human_col_char(m[1] as int),
    {
        let row: &str = if m[0] == 0 {
            "a"
        } else if m[0] == 1 {
            "b"
        } else {
            "c"
        };
        let col: &str = if m[1] == 0 {
            "1"
        } else if m[1] == 1 {
            "2"
        } else {
            "3"
        };
        proof {
            reveal_strlit("a");
            reveal_strlit("b");
            reveal_strlit("c");
            reveal_strlit("1");
            reveal_strlit("2");
            reveal_strlit("3");
        }
        let s = String::from_str(row);
        let out = s.concat(col);
        out
    }

    /// Serialize the player's savable state: side, table, initial rates and
    /// iteration counter. The annealing schedules are policy, not state, and
    /// are not persisted.
    pub fn to_save_bytes(&self) -> (out: Vec<u8>)
        requires
            self.wf(),
        ensures
            out@ == crate::codec::encode_save(
                crate::codec::SaveData {
                    piece: self.piece,
                    table: self.state_space@,
                    learning: self.initial_learning_rate,
                    exploration: self.initial_exploration_rate,
                    iteration: self.iteration,
                },
            ),
    {
        crate::codec::encode_player_bytes(
            self.piece,
            &self.state_space,
            self.initial_learning_rate,
            self.initial_exploration_rate,
            self.iteration,
        )
    }

    /// Restore a player from a save image, supplying the two annealing
    /// schedules afresh; a malformed image is rejected as unreadable.
    pub fn new_from_bytes(
        bytes: &[u8],
        learning_schedule: Schedule,
        exploration_schedule: Schedule,
    ) -> (r: Result<Player, PlayerError>)
        requires
            learning_schedule.wf(),
            exploration_schedule.wf(),
        ensures
            match r {
                Ok(p) => {
                    &&& crate::codec::decode_save(bytes@) is Some
                    &&& {
                        let d = crate::codec::decode_save(bytes@)->0;
                        &&& p.piece == d.piece
                        &&& p.state_space@ == d.table
                        &&& p.initial_learning_rate == d.learning
                        &&& p.initial_exploration_rate == d.exploration
                        &&& p.iteration == d.iteration
                        &&& p.learning_schedule == learning_schedule
                        &&& p.exploration_schedule == exploration_schedule
                        &&& p.wf()
                    }
                },
                Err(e) => e == PlayerError::UnableToRead && crate::codec::decode_save(
                    bytes@,
                ) is None,
            },
    {
        match crate::codec::decode_player_bytes(bytes) {
            Ok(d) => {
                let (piece, state_space, initial_learning_rate, initial_exploration_rate, iteration) =
                    d;
                Ok(
                    Player {
                        piece,
                        state_space,
                        initial_learning_rate,
                        initial_exploration_rate,
                        iteration,
                        learning_schedule,
                        exploration_schedule,
                        generator: fresh_generator(),
                    },
                )
            },
            Err(e) => Err(e),
        }
    }

    /// The win probability of playing `potential_move` on `compact_state`:
    /// the target cell is filled on the scratch board, the resulting state
    /// evaluated (materializing it if unseen), and the cell emptied again.
    fn get_move_probability(
        &mut self,
        compact_state: &mut [Piece; 9],
        potential_move: [u8; 2],
        piece: Piece,
    ) -> (r: u64)
        requires
            old(self).wf(),
            piece == old(self).piece,
            potential_move[0] < 3,
            potential_move[1] < 3,
            old(compact_state)@[3 * potential_move[0] + potential_move[1]] == Piece::Empty,
        ensures
            final(self).wf(),
            Player::same_profile(old(self), final(self)),
            final(compact_state)@ == old(compact_state)@,
            r == cand_value(
                old(self).state_space@,
                old(compact_state)@,
                3 * potential_move[0] + potential_move[1],
                piece,
            ),
            r <= SCALE,
            ({
                let j = states::state_index(
                    states::place(
                        old(compact_state)@,
                        3 * potential_move[0] + potential_move[1],
                        piece,
                    ),
                );
                final(self).state_space@ == if old(self).state_space@[j] is Some {
                    old(self).state_space@
                } else {
                    old(self).state_space@.update(j, Some(r))
                }
            }),
    {
        let cell = (potential_move[0] * 3 + potential_move[1]) as usize;
        compact_state[cell] = piece;
        let probability = self.state_space.evaluate(compact_state, piece);
        compact_state[cell] = Piece::Empty;
        proof {
            assert(final(compact_state)@ =~= old(compact_state)@);
            assert(states::place(
                old(compact_state)@,
                3 * potential_move[0] + potential_move[1],
                piece,
            ) =~= old(compact_state)@.update(cell as int, piece));
        }
        probability
    }

    /// All moves open from `compact_state`, in cell order, each with the
    /// evaluated win probability of the state it leads to. Evaluating the
    /// candidates materializes every unseen one in the table.
    fn get_potential_moves(&mut self, compact_state: &[Piece; 9]) -> (pm: PotentialMoves)
        requires
            old(self).wf(),
        ensures
            final(self).wf(),
            Player::same_profile(old(self), final(self)),
            final(self).state_space@ == materialize_cands(
                old(self).state_space@,
                compact_state@,
                old(self).piece,
            ),
            pm.next_moves@.len() == empty_cells(compact_state@).len(),
            pm.probabilities@.len() == empty_cells(compact_state@).len(),
            forall|k: int|
                0 <= k < empty_cells(compact_state@).len() ==> {
                    let cell = empty_cells(compact_state@)[k];
                    &&& (#[trigger] pm.next_moves@[k])[0] as int == cell / 3
                    &&& pm.next_moves@[k][1] as int == cell % 3
                    &&& pm.probabilities@[k] == cand_value(
                        old(self).state_space@,
                        compact_state@,
                        cell,
                        old(self).piece,
                    )
                    &&& pm.probabilities@[k] <= SCALE
                },
    {
        let ghost t0 = self.state_space@;
        let ghost s = compact_state@;
        let ghost me = self.piece;
        let mut next_moves: Vec<[u8; 2]> = Vec::new();
        let mut probabilities: Vec<u64> = Vec::new();
        let mut board: [Piece; 9] = *compact_state;
        let mut counter: u8 = 0;
        while counter < 9
            invariant
                self.wf(),
                Player::same_profile(old(self), &self),
                self.piece == me,
                t0 == old(self).state_space@,
                s == compact_state@,
                t0.len() == STATE_COUNT,
                me != Piece::Empty,
                counter <= 9,
                board@ == s,
                self.state_space@ == materialize_upto(t0, s, me, counter as int),
                next_moves@.len() == empty_cells_upto(s, counter as int).len(),
                probabilities@.len() == empty_cells_upto(s, counter as int).len(),
                forall|k: int|
                    0 <= k < empty_cells_upto(s, counter as int).len() ==> {
                        let cell = empty_cells_upto(s, counter as int)[k];
                        &&& (#[trigger] next_moves@[k])[0] as int == cell / 3
                        &&& next_moves@[k][1] as int == cell % 3
                        &&& probabilities@[k] == cand_value(t0, s, cell, me)
                        &&& probabilities@[k] <= SCALE
                    },
            decreases 9 - counter,
        {
            let ghost cur = self.state_space@;
            let ghost n = counter as int;
            proof {
                assert(3 * (counter / 3) + counter % 3 == counter) by (nonlinear_arith)
                    requires
                        counter < 9,
                ;
            }
            if board[counter as usize] == Piece::Empty {
                let mv: [u8; 2] = [counter / 3, counter % 3];
                let probability = self.get_move_probability(&mut board, mv, self.piece);
                next_moves.push(mv);
                probabilities.push(probability);
                proof {
                    let j = states::state_index(states::place(s, n, me));
                    states::lemma_state_index_range(states::place(s, n, me));
                    // The candidate index of cell `n` is fresh: it cannot have
                    // been materialized by an earlier cell.
                    if is_cand_index_upto(s, me, j, n) {
                        let c = choose|c: int|
                            0 <= c < n && s[c] == Piece::Empty && j == states::state_index(
                                states::place(s, c, me),
                            );
                        lemma_place_indices_distinct(s, me, n, c);
                    }
                    assert(cur[j] == t0[j]);
                    assert(probability == cand_value(t0, s, n, me));
                    // One more cell materialized: the tables agree pointwise.
                    assert forall|j2: int| 0 <= j2 < STATE_COUNT implies self.state_space@[j2]
                        == materialize_upto(t0, s, me, n + 1)[j2] by {
                        if j2 != j {
                            if is_cand_index_upto(s, me, j2, n + 1) && !is_cand_index_upto(
                                s,
                                me,
                                j2,
                                n,
                            ) {
                                let c = choose|c: int|
                                    0 <= c < n + 1 && s[c] == Piece::Empty && j2
                                        == states::state_index(states::place(s, c, me));
                                assert(c == n);
                                assert(j2 == j);
                            }
                            assert(self.state_space@[j2] == cur[j2]);
                        } else {
                            states::lemma_state_index_roundtrip(states::place(s, n, me));
                            assert(is_cand_index_upto(s, me, j, n + 1));
                        }
                    }
                    assert(self.state_space@ =~= materialize_upto(t0, s, me, n + 1));
                    // The new rows of the move vectors describe cell `n`.
                    assert(empty_cells_upto(s, n + 1) == empty_cells_upto(s, n).push(n));
                    assert forall|k: int|
                        0 <= k < empty_cells_upto(s, n + 1).len() implies {
                        let cell = empty_cells_upto(s, n + 1)[k];
                        &&& (#[trigger] next_moves@[k])[0] as int == cell / 3
                        &&& next_moves@[k][1] as int == cell % 3
                        &&& probabilities@[k] == cand_value(t0, s, cell, me)
                        &&& probabilities@[k] <= SCALE
                    } by {
                        if k < empty_cells_upto(s, n).len() {
                            assert(empty_cells_upto(s, n + 1)[k] == empty_cells_upto(s, n)[k]);
                        } else {
                            assert(empty_cells_upto(s, n + 1)[k] == n);
                        }
                    }
                }
            } else {
                proof {
                    assert(empty_cells_upto(s, n + 1) == empty_cells_upto(s, n));
                    assert forall|j2: int| 0 <= j2 < STATE_COUNT implies self.state_space@[j2]
                        == materialize_upto(t0, s, me, n + 1)[j2] by {
                        if is_cand_index_upto(s, me, j2, n + 1) && !is_cand_index_upto(
                            s,
                            me,
                            j2,
                            n,
                        ) {
                            let c = choose|c: int|
                                0 <= c < n + 1 && s[c] == Piece::Empty && j2
                                    == states::state_index(states::place(s, c, me));
                            assert(c == n);
                        }
                    }
                    assert(self.state_space@ =~= materialize_upto(t0, s, me, n + 1));
                }
            }
            counter += 1;
        }
        PotentialMoves { next_moves, probabilities }
    }

    /// Highest win probability among `probabilities`, zero when none is
    /// offered.
    fn probs_max(probabilities: &Vec<u64>) -> (m: u64)
        ensures
            m == seq_max(probabilities@),
    {
        let n = probabilities.len();
        let mut max_probability: u64 = 0;
        let mut idx: usize = 0;
        while idx < n
            invariant
                n == probabilities@.len(),
                idx <= n,
                max_probability == seq_max(probabilities@.subrange(0, idx as int)),
            decreases n - idx,
        {
            proof {
                assert(probabilities@.subrange(0, idx + 1).drop_last() =~= probabilities@.subrange(
                    0,
                    idx as int,
                ));
                assert(probabilities@.subrange(0, idx + 1).last() == probabilities@[idx as int]);
            }
            if probabilities[idx] > max_probability {
                max_probability = probabilities[idx];
            }
            idx += 1;
        }
        proof {
            assert(probabilities@.subrange(0, n as int) =~= probabilities@);
        }
        max_probability
    }

    /// A nonempty sequence attains its maximum.
    proof fn lemma_seq_max_achieved(p: Seq<u64>)
        requires
            p.len() > 0,
        ensures
            exists|k: int| 0 <= k < p.len() && p[k] == seq_max(p),
        decreases p.len(),
    {
        if p.len() == 1 {
            assert(seq_max(p.drop_last()) == 0);
            assert(p[0] == seq_max(p));
        } else if p.last() >= seq_max(p.drop_last()) {
            assert(p[p.len() - 1] == seq_max(p));
        } else {
            Self::lemma_seq_max_achieved(p.drop_last());
            let k = choose|k: int|
                0 <= k < p.drop_last().len() && p.drop_last()[k] == seq_max(p.drop_last());
            assert(p[k] == seq_max(p));
        }
    }

    /// The moves whose win probability is the best on offer, in cell
    /// order.
    fn select_best_moves(potential_moves: &PotentialMoves, max_probability: u64) -> (best: Vec<
        [u8; 2],
    >)
        requires
            potential_moves.next_moves@.len() == potential_moves.probabilities@.len(),
            max_probability == seq_max(potential_moves.probabilities@),
        ensures
            potential_moves.next_moves@.len() > 0 ==> best@.len() > 0,
            forall|b: int|
                0 <= b < best@.len() ==> listed_with_value(
                    potential_moves.next_moves@,
                    potential_moves.probabilities@,
                    #[trigger] best@[b],
                    max_probability,
                ),
    {
        let n = potential_moves.next_moves.len();
        let mut best_moves: Vec<[u8; 2]> = Vec::new();
        let mut idx: usize = 0;
        while idx < n
            invariant
                n == potential_moves.next_moves@.len(),
                potential_moves.probabilities@.len() == n,
                idx <= n,
                best_moves@.len() == 0 ==> forall|k: int|
                    0 <= k < idx ==> #[trigger] potential_moves.probabilities@[k]
                        != max_probability,
                forall|b: int|
                    0 <= b < best_moves@.len() ==> listed_with_value(
                        potential_moves.next_moves@,
                        potential_moves.probabilities@,
                        #[trigger] best_moves@[b],
                        max_probability,
                    ),
            decreases n - idx,
        {
            if potential_moves.probabilities[idx] == max_probability {
                best_moves.push(potential_moves.next_moves[idx]);
                proof {
                    assert(best_moves@.last() == potential_moves.next_moves@[idx as int]);
                    assert(listed_with_value(
                        potential_moves.next_moves@,
                        potential_moves.probabilities@,
                        best_moves@.last(),
                        max_probability,
                    ));
                }
            }
            idx += 1;
        }
        proof {
            if n > 0 {
                Self::lemma_seq_max_achieved(potential_moves.probabilities@);
            }
        }
        best_moves
    }

    /// Choose the best open move, breaking ties at random, and move the
    /// current state's value towards the best candidate value by the
    /// current learning rate.
    #[verifier::rlimit(100)]
    fn make_optimal_move(&mut self, compact_state: &[Piece; 9]) -> (r: [u8; 2])
        requires
            old(self).wf(),
            !states::terminal(compact_state@),
        ensures
            final(self).wf(),
            Player::same_profile(old(self), final(self)),
            final(self).state_space@ == greedy_updated_table(
                old(self).state_space@,
                compact_state@,
                old(self).piece,
                old(self).current_learning_rate(),
            ),
            exists|cell: int|
                #[trigger] greedy_cell(old(self).state_space@, compact_state@, old(self).piece, cell)
                    && move_on_cell(r, cell),
            r[0] < 3,
            r[1] < 3,
            compact_state@[3 * (r[0] as int) + (r[1] as int)] == Piece::Empty,
    {
        let ghost t0 = self.state_space@;
        let ghost s = compact_state@;
        let ghost me = self.piece;
        let potential_moves = self.get_potential_moves(compact_state);
        let n = potential_moves.next_moves.len();
        let max_probability = Self::probs_max(&potential_moves.probabilities);
        let best_moves = Self::select_best_moves(&potential_moves, max_probability);
        proof {
            lemma_empty_cells_upto_props(s, 9);
            assert forall|k: int| 0 <= k < n implies potential_moves.probabilities@[k]
                == cand_probs(t0, s, me)[k] by {
                let mv = potential_moves.next_moves@[k];
            }
            assert(potential_moves.probabilities@ =~= cand_probs(t0, s, me));
            assert(max_probability == max_cand_value(t0, s, me));
            lemma_seq_max_le(cand_probs(t0, s, me), SCALE);
            assert(!states::full(s));
            assert(exists|c: int| 0 <= c < 9 && s[c] == Piece::Empty);
            let c = choose|c: int| 0 <= c < 9 && s[c] == Piece::Empty;
            assert(empty_cells(s).contains(c));
            assert(n > 0);
        }
        let old_prob = self.state_space.evaluate(compact_state, self.piece);
        proof {
            lemma_materialize_keeps_self(t0, s, me, 9);
            assert(old_prob == stored_or_default(t0, s, me));
        }
        let lrate = self.learning_schedule.rate(self.initial_learning_rate, self.iteration);
        let new_prob = values::td_update(old_prob, max_probability, lrate);
        self.state_space.set(compact_state, new_prob);
        proof {
            assert(lrate == old(self).current_learning_rate());
            assert(self.state_space@ =~= greedy_updated_table(
                t0,
                s,
                me,
                old(self).current_learning_rate(),
            ));
        }
        let chosen: [u8; 2];
        if best_moves.len() == 1 {
            chosen = best_moves[0];
            proof {
                assert(best_moves@[0] == chosen);
            }
        } else {
            let i = draw_below(&mut self.generator, best_moves.len() as u64) as usize;
            chosen = best_moves[i];
            proof {
                assert(best_moves@[i as int] == chosen);
            }
        }
        proof {
            assert(listed_with_value(
                potential_moves.next_moves@,
                potential_moves.probabilities@,
                chosen,
                max_probability,
            ));
            let k = choose|k: int|
                0 <= k < n && potential_moves.next_moves@[k] == chosen
                    && potential_moves.probabilities@[k] == max_probability;
            let mv = potential_moves.next_moves@[k];
            let cell = empty_cells(s)[k];
            assert(cell / 3 < 3 && cell % 3 < 3 && 3 * (cell / 3) + cell % 3 == cell)
                by (nonlinear_arith)
                requires
                    0 <= cell < 9,
            ;
            assert(greedy_cell(t0, s, me, cell) && move_on_cell(chosen, cell));
        }
        chosen
    }

    /// Choose an exploratory move: one whose value is strictly below the
    /// best on offer, picked at random; when every open move is equally
    /// good, fall back to a uniformly random open move.
    #[verifier::rlimit(100)]
    fn make_random_move(&mut self, compact_state: &[Piece; 9]) -> (r: [u8; 2])
        requires
            old(self).wf(),
            !states::full(compact_state@),
        ensures
            final(self).wf(),
            Player::same_profile(old(self), final(self)),
            final(self).state_space@ == materialize_cands(
                old(self).state_space@,
                compact_state@,
                old(self).piece,
            ),
            exists|cell: int|
                #[trigger] exploratory_cell(
                    old(self).state_space@,
                    compact_state@,
                    old(self).piece,
                    cell,
                ) && move_on_cell(r, cell),
            r[0] < 3,
            r[1] < 3,
            compact_state@[3 * (r[0] as int) + (r[1] as int)] == Piece::Empty,
    {
        let ghost t0 = self.state_space@;
        let ghost s = compact_state@;
        let ghost me = self.piece;
        let potential_moves = self.get_potential_moves(compact_state);
        let n = potential_moves.next_moves.len();
        let max_probability = Self::probs_max(&potential_moves.probabilities);
        proof {
            lemma_empty_cells_upto_props(s, 9);
            assert forall|k: int| 0 <= k < n implies potential_moves.probabilities@[k]
                == cand_probs(t0, s, me)[k] by {
                let mv = potential_moves.next_moves@[k];
            }
            assert(potential_moves.probabilities@ =~= cand_probs(t0, s, me));
            assert(max_probability == max_cand_value(t0, s, me));
            assert(exists|c: int| 0 <= c < 9 && s[c] == Piece::Empty);
            let c = choose|c: int| 0 <= c < 9 && s[c] == Piece::Empty;
            assert(empty_cells(s).contains(c));
            assert(n > 0);
        }
        let mut exploration_moves: Vec<[u8; 2]> = Vec::new();
        let mut idx2: usize = 0;
        while idx2 < n
            invariant
                n == potential_moves.next_moves@.len(),
                potential_moves.probabilities@.len() == n,
                idx2 <= n,
                forall|b: int|
                    0 <= b < exploration_moves@.len() ==> listed_below_value(
                        potential_moves.next_moves@,
                        potential_moves.probabilities@,
                        #[trigger] exploration_moves@[b],
                        max_probability,
                    ),
                exploration_moves@.len() == 0 ==> forall|k: int|
                    0 <= k < idx2 ==> #[trigger] potential_moves.probabilities@[k]
                        >= max_probability,
            decreases n - idx2,
        {
            if potential_moves.probabilities[idx2] < max_probability {
                exploration_moves.push(potential_moves.next_moves[idx2]);
                proof {
                    assert(exploration_moves@.last() == potential_moves.next_moves@[idx2 as int]);
                    assert(listed_below_value(
                        potential_moves.next_moves@,
                        potential_moves.probabilities@,
                        exploration_moves@.last(),
                        max_probability,
                    ));
                }
            }
            idx2 += 1;
        }
        let chosen: [u8; 2];
        if exploration_moves.len() == 0 {
            let i = draw_below(&mut self.generator, n as u64) as usize;
            chosen = potential_moves.next_moves[i];
            proof {
                lemma_seq_max_ge(cand_probs(t0, s, me));
                // Every open move carries the maximal value, so any open
                // move counts as exploratory.
                assert forall|c: int| 0 <= c < 9 && s[c] == Piece::Empty implies #[trigger] cand_value(
                    t0,
                    s,
                    c,
                    me,
                ) == max_cand_value(t0, s, me) by {
                    assert(empty_cells(s).contains(c));
                    let k = choose|k: int|
                        0 <= k < empty_cells(s).len() && #[trigger] empty_cells(s)[k] == c;
                    assert(cand_probs(t0, s, me)[k] == cand_value(t0, s, c, me));
                }
                let mv = potential_moves.next_moves@[i as int];
                let cell = empty_cells(s)[i as int];
                assert(cell / 3 < 3 && cell % 3 < 3 && 3 * (cell / 3) + cell % 3 == cell)
                    by (nonlinear_arith)
                    requires
                        0 <= cell < 9,
                ;
                assert(exploratory_cell(t0, s, me, cell) && move_on_cell(chosen, cell));
            }
        } else {
            let i = draw_below(&mut self.generator, exploration_moves.len() as u64) as usize;
            chosen = exploration_moves[i];
            proof {
                assert(exploration_moves@[i as int] == chosen);
                assert(listed_below_value(
                    potential_moves.next_moves@,
                    potential_moves.probabilities@,
                    chosen,
                    max_probability,
                ));
                let k = choose|k: int|
                    0 <= k < n && potential_moves.next_moves@[k] == chosen
                        && potential_moves.probabilities@[k] < max_probability;
                let mv = potential_moves.next_moves@[k];
                let cell = empty_cells(s)[k];
                assert(cell / 3 < 3 && cell % 3 < 3 && 3 * (cell / 3) + cell % 3 == cell)
                    by (nonlinear_arith)
                    requires
                        0 <= cell < 9,
                ;
                assert(exploratory_cell(t0, s, me, cell) && move_on_cell(chosen, cell));
            }
        }
        chosen
    }

    /// Decide the player's move from `board_state`: with the annealed
    /// exploration probability an exploratory move, otherwise the greedy
    /// move together with its temporal-difference update of the current
    /// state.
    pub fn make_move(&mut self, board_state: &[Piece; 9]) -> (r: [u8; 2])
        requires
            old(self).wf(),
            !states::terminal(board_state@),
        ensures
            final(self).wf(),
            Player::same_profile(old(self), final(self)),
            r[0] < 3,
            r[1] < 3,
            board_state@[3 * (r[0] as int) + (r[1] as int)] == Piece::Empty,
            ({
                ||| (final(self).state_space@ == greedy_updated_table(
                    old(self).state_space@,
                    board_state@,
                    old(self).piece,
                    old(self).current_learning_rate(),
                ) && (exists|cell: int|
                    #[trigger] greedy_cell(
                        old(self).state_space@,
                        board_state@,
                        old(self).piece,
                        cell,
                    ) && move_on_cell(r, cell)))
                ||| (final(self).state_space@ == materialize_cands(
                    old(self).state_space@,
                    board_state@,
                    old(self).piece,
                ) && (exists|cell: int|
                    #[trigger] exploratory_cell(
                        old(self).state_space@,
                        board_state@,
                        old(self).piece,
                        cell,
                    ) && move_on_cell(r, cell)))
            }),
    {
        // First, choose whether this move will be greedy or exploratory.
        let rand_val = draw_below(&mut self.generator, SCALE);
        let exp_rate = self.exploration_schedule.rate(
            self.initial_exploration_rate,
            self.iteration,
        );
        if rand_val < exp_rate {
            self.make_random_move(board_state)
        } else {
            self.make_optimal_move(board_state)
        }
    }

    /// Learn from a game that ended against this player right after
    /// `compact_state`: evaluate that state and move its value towards
    /// zero, the value of the terminal state the opponent forced.
    pub fn show_loosing_state(&mut self, compact_state: &[Piece; 9])
        requires
            old(self).wf(),
            !states::terminal(compact_state@),
        ensures
            final(self).wf(),
            Player::same_profile(old(self), final(self)),
            final(self).state_space@ == old(self).state_space@.update(
                states::state_index(compact_state@),
                Some(
                    td_value(
                        stored_or_default(old(self).state_space@, compact_state@, old(self).piece),
                        0,
                        old(self).current_learning_rate(),
                    ) as u64,
                ),
            ),
    {
        let ghost t0 = self.state_space@;
        let old_prob = self.state_space.evaluate(compact_state, self.piece);
        let lrate = self.learning_schedule.rate(self.initial_learning_rate, self.iteration);
        let new_prob = values::td_update(old_prob, 0, lrate);
        self.state_space.set(compact_state, new_prob);
        proof {
            assert(self.state_space@ =~= t0.update(
                states::state_index(compact_state@),
                Some(
                    td_value(
                        stored_or_default(t0, compact_state@, old(self).piece),
                        0,
                        old(self).current_learning_rate(),
                    ) as u64,
                ),
            ));
        }
    }
}

} // verus!
