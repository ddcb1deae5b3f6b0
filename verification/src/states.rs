//! The mathematical model of a compact board state: a length-9 sequence of
//! cell markers (the flattened 3x3 board), the win/draw predicates over it,
//! the default value a player assigns to a newly seen state, and a bijection
//! between states and their base-3 table indices.

use vstd::prelude::*;

verus! {

use crate::game::board::Piece;

/// Number of distinct compact states: 3 markers to the power of 9 cells.
pub const STATE_COUNT: usize = 19683;

/// Fixed-point scale: a probability of 1.0 is represented as `SCALE`.
pub const SCALE: u64 = 1_000_000;

/// Fixed-point representation of the 0.5 default value of an unseen state.
pub const HALF: u64 = 500_000;

/// Base-3 digit standing for a cell marker.
pub open spec fn cell_tag(p: Piece) -> int {
    match p {
        Piece::Empty => 0,
        Piece::X => 1,
        Piece::O => 2,
    }
}

/// Inverse of `cell_tag` on 0, 1, 2.
pub open spec fn piece_of_tag(t: int) -> Piece {
    if t == 0 {
        Piece::Empty
    } else if t == 1 {
        Piece::X
    } else {
        Piece::O
    }
}

/// A compact state is exactly nine cells.
pub open spec fn valid_state(s: Seq<Piece>) -> bool {
    s.len() == 9
}

/// The all-empty compact state: the board a game starts from.
pub open spec fn empty_state() -> Seq<Piece> {
    Seq::new(9, |i: int| Piece::Empty)
}

/// Cells `a`, `b`, `c` hold three equal, non-empty markers.
pub open spec fn line_complete(s: Seq<Piece>, a: int, b: int, c: int) -> bool {
    s[a] == s[b] && s[a] == s[c] && s[a] != Piece::Empty
}

/// Winner by rows, top row checked first.
pub open spec fn row_winner(s: Seq<Piece>) -> Option<Piece> {
    if line_complete(s, 0, 1, 2) {
        Some(s[0])
    } else if line_complete(s, 3, 4, 5) {
        Some(s[3])
    } else if line_complete(s, 6, 7, 8) {
        Some(s[6])
    } else {
        None
    }
}

/// Winner by columns, left column checked first.
pub open spec fn col_winner(s: Seq<Piece>) -> Option<Piece> {
    if line_complete(s, 0, 3, 6) {
        Some(s[0])
    } else if line_complete(s, 1, 4, 7) {
        Some(s[1])
    } else if line_complete(s, 2, 5, 8) {
        Some(s[2])
    } else {
        None
    }
}

/// Winner by diagonals, the main diagonal checked first.
pub open spec fn diag_winner(s: Seq<Piece>) -> Option<Piece> {
    if line_complete(s, 0, 4, 8) {
        Some(s[0])
    } else if line_complete(s, 6, 4, 2) {
        Some(s[6])
    } else {
        None
    }
}

/// Winner of a compact state as the player evaluates it: rows, then columns,
/// then diagonals.
pub open spec fn winner(s: Seq<Piece>) -> Option<Piece> {
    match row_winner(s) {
        Some(p) => Some(p),
        None => match col_winner(s) {
            Some(p) => Some(p),
            None => diag_winner(s),
        },
    }
}

/// Winner of a board as the board itself reports it: columns, then rows,
/// then diagonals.
pub open spec fn board_winner(s: Seq<Piece>) -> Option<Piece> {
    match col_winner(s) {
        Some(p) => Some(p),
        None => match row_winner(s) {
            Some(p) => Some(p),
            None => diag_winner(s),
        },
    }
}

/// No cell is empty.
pub open spec fn full(s: Seq<Piece>) -> bool {
    forall|i: int| 0 <= i < 9 ==> s[i] != Piece::Empty
}

/// The game is over in this state: someone has a complete line, or no cell
/// is left to play.
pub open spec fn terminal(s: Seq<Piece>) -> bool {
    winner(s) is Some || full(s)
}

/// The value a player owning side `me` assigns to a state on first sight:
/// exactly 1.0 for a state it has won, exactly 0.0 for a lost or drawn
/// state, and 0.5 for anything still undecided.
pub open spec fn default_value(s: Seq<Piece>, me: Piece) -> u64 {
    if winner(s) == Some(me) {
        SCALE
    } else if winner(s) is Some || full(s) {
        0
    } else {
        HALF
    }
}

/// Row letter a person writes for row `r`.
pub open spec fn human_row_char(r: int) -> char {
    if r == 0 {
        'a'
    } else if r == 1 {
        'b'
    } else {
        'c'
    }
}

/// Column digit a person writes for column `c`.
pub open spec fn human_col_char(c: int) -> char {
    if c == 0 {
        '1'
    } else if c == 1 {
        '2'
    } else {
        '3'
    }
}

/// The state reached from `s` by putting marker `p` on cell `cell`.
pub open spec fn place(s: Seq<Piece>, cell: int, p: Piece) -> Seq<Piece> {
    s.update(cell, p)
}

/// Table index of a compact state: its cells read as base-3 digits, cell 0
/// least significant.
pub open spec fn state_index(s: Seq<Piece>) -> int {
    cell_tag(s[0]) + 3 * cell_tag(s[1]) + 9 * cell_tag(s[2]) + 27 * cell_tag(s[3]) + 81 * cell_tag(
        s[4],
    ) + 243 * cell_tag(s[5]) + 729 * cell_tag(s[6]) + 2187 * cell_tag(s[7]) + 6561 * cell_tag(s[8])
}

/// The compact state whose table index is `i`: the base-3 digits of `i`.
pub open spec fn state_of_index(i: int) -> Seq<Piece> {
    seq![
        piece_of_tag(i % 3),
        piece_of_tag((i / 3) % 3),
        piece_of_tag((i / 9) % 3),
        piece_of_tag((i / 27) % 3),
        piece_of_tag((i / 81) % 3),
        piece_of_tag((i / 243) % 3),
        piece_of_tag((i / 729) % 3),
        piece_of_tag((i / 2187) % 3),
        piece_of_tag((i / 6561) % 3),
    ]
}

/// Every state's index lies below `STATE_COUNT`.
pub proof fn lemma_state_index_range(s: Seq<Piece>)
    requires
        valid_state(s),
    ensures
        0 <= state_index(s) < STATE_COUNT,
{
    assert(forall|p: Piece| 0 <= #[trigger] cell_tag(p) <= 2);
}

/// Decoding the index of a state gives the state back; in particular the
/// index determines the state.
pub proof fn lemma_state_index_roundtrip(s: Seq<Piece>)
    requires
        valid_state(s),
    ensures
        state_of_index(state_index(s)) == s,
{
    let t0 = cell_tag(s[0]);
    let t1 = cell_tag(s[1]);
    let t2 = cell_tag(s[2]);
    let t3 = cell_tag(s[3]);
    let t4 = cell_tag(s[4]);
    let t5 = cell_tag(s[5]);
    let t6 = cell_tag(s[6]);
    let t7 = cell_tag(s[7]);
    let t8 = cell_tag(s[8]);
    let i = state_index(s);
    assert(forall|p: Piece| 0 <= #[trigger] cell_tag(p) <= 2);
    assert(forall|p: Piece| #[trigger] piece_of_tag(cell_tag(p)) == p);
    let q1 = t1 + 3 * t2 + 9 * t3 + 27 * t4 + 81 * t5 + 243 * t6 + 729 * t7 + 2187 * t8;
    let q2 = t2 + 3 * t3 + 9 * t4 + 27 * t5 + 81 * t6 + 243 * t7 + 729 * t8;
    let q3 = t3 + 3 * t4 + 9 * t5 + 27 * t6 + 81 * t7 + 243 * t8;
    let q4 = t4 + 3 * t5 + 9 * t6 + 27 * t7 + 81 * t8;
    let q5 = t5 + 3 * t6 + 9 * t7 + 27 * t8;
    let q6 = t6 + 3 * t7 + 9 * t8;
    let q7 = t7 + 3 * t8;
    let q8 = t8;
    vstd::arithmetic::div_mod::lemma_fundamental_div_mod_converse(i, 3, q1, t0);
    vstd::arithmetic::div_mod::lemma_fundamental_div_mod_converse(q1, 3, q2, t1);
    vstd::arithmetic::div_mod::lemma_fundamental_div_mod_converse(q2, 3, q3, t2);
    vstd::arithmetic::div_mod::lemma_fundamental_div_mod_converse(q3, 3, q4, t3);
    vstd::arithmetic::div_mod::lemma_fundamental_div_mod_converse(q4, 3, q5, t4);
    vstd::arithmetic::div_mod::lemma_fundamental_div_mod_converse(q5, 3, q6, t5);
    vstd::arithmetic::div_mod::lemma_fundamental_div_mod_converse(q6, 3, q7, t6);
    vstd::arithmetic::div_mod::lemma_fundamental_div_mod_converse(q7, 3, q8, t7);
    vstd::arithmetic::div_mod::lemma_fundamental_div_mod_converse(q8, 3, 0, t8);
    assert(i / 9 == q2 && i / 27 == q3 && i / 81 == q4 && i / 243 == q5 && i / 729 == q6 && i
        / 2187 == q7 && i / 6561 == q8) by {
        vstd::arithmetic::div_mod::lemma_div_denominator(i, 3, 3);
        vstd::arithmetic::div_mod::lemma_div_denominator(i, 9, 3);
        vstd::arithmetic::div_mod::lemma_div_denominator(i, 27, 3);
        vstd::arithmetic::div_mod::lemma_div_denominator(i, 81, 3);
        vstd::arithmetic::div_mod::lemma_div_denominator(i, 243, 3);
        vstd::arithmetic::div_mod::lemma_div_denominator(i, 729, 3);
        vstd::arithmetic::div_mod::lemma_div_denominator(i, 2187, 3);
    }
    assert(state_of_index(i) =~= s);
}

/// Encoding the state of an index gives the index back.
pub proof fn lemma_index_of_state_of_index(i: int)
    requires
        0 <= i < STATE_COUNT,
    ensures
        state_index(state_of_index(i)) == i,
{
    assert(forall|d: int| 0 <= d < 3 ==> #[trigger] cell_tag(piece_of_tag(d)) == d);
    let q1 = i / 3;
    let q2 = i / 9;
    let q3 = i / 27;
    let q4 = i / 81;
    let q5 = i / 243;
    let q6 = i / 729;
    let q7 = i / 2187;
    let q8 = i / 6561;
    assert(q1 / 3 == q2 && q2 / 3 == q3 && q3 / 3 == q4 && q4 / 3 == q5 && q5 / 3 == q6 && q6 / 3
        == q7 && q7 / 3 == q8) by {
        vstd::arithmetic::div_mod::lemma_div_denominator(i, 3, 3);
        vstd::arithmetic::div_mod::lemma_div_denominator(i, 9, 3);
        vstd::arithmetic::div_mod::lemma_div_denominator(i, 27, 3);
        vstd::arithmetic::div_mod::lemma_div_denominator(i, 81, 3);
        vstd::arithmetic::div_mod::lemma_div_denominator(i, 243, 3);
        vstd::arithmetic::div_mod::lemma_div_denominator(i, 729, 3);
        vstd::arithmetic::div_mod::lemma_div_denominator(i, 2187, 3);
    }
    vstd::arithmetic::div_mod::lemma_fundamental_div_mod(i, 3);
    vstd::arithmetic::div_mod::lemma_fundamental_div_mod(q1, 3);
    vstd::arithmetic::div_mod::lemma_fundamental_div_mod(q2, 3);
    vstd::arithmetic::div_mod::lemma_fundamental_div_mod(q3, 3);
    vstd::arithmetic::div_mod::lemma_fundamental_div_mod(q4, 3);
    vstd::arithmetic::div_mod::lemma_fundamental_div_mod(q5, 3);
    vstd::arithmetic::div_mod::lemma_fundamental_div_mod(q6, 3);
    vstd::arithmetic::div_mod::lemma_fundamental_div_mod(q7, 3);
    assert(0 <= i % 3 < 3 && 0 <= q1 % 3 < 3 && 0 <= q2 % 3 < 3 && 0 <= q3 % 3 < 3 && 0 <= q4 % 3
        < 3 && 0 <= q5 % 3 < 3 && 0 <= q6 % 3 < 3 && 0 <= q7 % 3 < 3) by {
        vstd::arithmetic::div_mod::lemma_mod_bound(i, 3);
        vstd::arithmetic::div_mod::lemma_mod_bound(q1, 3);
        vstd::arithmetic::div_mod::lemma_mod_bound(q2, 3);
        vstd::arithmetic::div_mod::lemma_mod_bound(q3, 3);
        vstd::arithmetic::div_mod::lemma_mod_bound(q4, 3);
        vstd::arithmetic::div_mod::lemma_mod_bound(q5, 3);
        vstd::arithmetic::div_mod::lemma_mod_bound(q6, 3);
        vstd::arithmetic::div_mod::lemma_mod_bound(q7, 3);
    }
    assert(0 <= q8 < 3) by {
        vstd::arithmetic::div_mod::lemma_div_pos_is_pos(i, 6561);
        vstd::arithmetic::div_mod::lemma_multiply_divide_lt(i, 6561, 3);
    }
    assert(q8 % 3 == q8) by {
        vstd::arithmetic::div_mod::lemma_small_mod(q8 as nat, 3);
    }
}

/// Two distinct states have distinct indices.
pub proof fn lemma_state_index_injective(a: Seq<Piece>, b: Seq<Piece>)
    requires
        valid_state(a),
        valid_state(b),
        state_index(a) == state_index(b),
    ensures
        a == b,
{
    lemma_state_index_roundtrip(a);
    lemma_state_index_roundtrip(b);
}

/// Base-3 digit of a marker, as a machine integer.
pub fn tag_of(p: Piece) -> (t: u8)
    ensures
        t as int == cell_tag(p),
{
    match p {
        Piece::Empty => 0,
        Piece::X => 1,
        Piece::O => 2,
    }
}

/// Marker of a base-3 digit, as a machine integer.
pub fn piece_of(t: u8) -> (p: Piece)
    ensures
        p == piece_of_tag(t as int),
{
    if t == 0 {
        Piece::Empty
    } else if t == 1 {
        Piece::X
    } else {
        Piece::O
    }
}

/// Table index of a compact state.
#[verifier::rlimit(50)]
pub fn encode_state(s: &[Piece; 9]) -> (i: usize)
    ensures
        i as int == state_index(s@),
        i < STATE_COUNT,
{
    let t0 = tag_of(s[0]) as usize;
    let t1 = tag_of(s[1]) as usize;
    let t2 = tag_of(s[2]) as usize;
    let t3 = tag_of(s[3]) as usize;
    let t4 = tag_of(s[4]) as usize;
    let t5 = tag_of(s[5]) as usize;
    let t6 = tag_of(s[6]) as usize;
    let t7 = tag_of(s[7]) as usize;
    let t8 = tag_of(s[8]) as usize;
    let i: usize = t0 + 3 * t1 + 9 * t2 + 27 * t3 + 81 * t4 + 243 * t5 + 729 * t6 + 2187 * t7
        + 6561 * t8;
    i
}

/// Compact state of a table index.
pub fn decode_state(i: usize) -> (s: [Piece; 9])
    requires
        i < STATE_COUNT,
    ensures
        s@ =~= state_of_index(i as int),
{
    let mut s = [Piece::Empty; 9];
    s[0] = piece_of((i % 3) as u8);
    s[1] = piece_of(((i / 3) % 3) as u8);
    s[2] = piece_of(((i / 9) % 3) as u8);
    s[3] = piece_of(((i / 27) % 3) as u8);
    s[4] = piece_of(((i / 81) % 3) as u8);
    s[5] = piece_of(((i / 243) % 3) as u8);
    s[6] = piece_of(((i / 729) % 3) as u8);
    s[7] = piece_of(((i / 2187) % 3) as u8);
    s[8] = piece_of(((i / 6561) % 3) as u8);
    s
}

/// Winner of a compact state by rows, top row checked first.
pub fn row_winner_of(s: &[Piece; 9]) -> (r: Option<Piece>)
    ensures
        r == row_winner(s@),
{
    if s[0] == s[1] && s[0] == s[2] && s[0] != Piece::Empty {
        Some(s[0])
    } else if s[3] == s[4] && s[3] == s[5] && s[3] != Piece::Empty {
        Some(s[3])
    } else if s[6] == s[7] && s[6] == s[8] && s[6] != Piece::Empty {
        Some(s[6])
    } else {
        None
    }
}

/// Winner of a compact state by columns, left column checked first.
pub fn col_winner_of(s: &[Piece; 9]) -> (r: Option<Piece>)
    ensures
        r == col_winner(s@),
{
    if s[0] == s[3] && s[0] == s[6] && s[0] != Piece::Empty {
        Some(s[0])
    } else if s[1] == s[4] && s[1] == s[7] && s[1] != Piece::Empty {
        Some(s[1])
    } else if s[2] == s[5] && s[2] == s[8] && s[2] != Piece::Empty {
        Some(s[2])
    } else {
        None
    }
}

/// Winner of a compact state by diagonals, the main diagonal checked first.
pub fn diag_winner_of(s: &[Piece; 9]) -> (r: Option<Piece>)
    ensures
        r == diag_winner(s@),
{
    if s[0] == s[4] && s[0] == s[8] && s[0] != Piece::Empty {
        Some(s[0])
    } else if s[6] == s[4] && s[6] == s[2] && s[6] != Piece::Empty {
        Some(s[6])
    } else {
        None
    }
}

/// Winner of a compact state: rows, then columns, then diagonals.
pub fn winner_of(s: &[Piece; 9]) -> (r: Option<Piece>)
    ensures
        r == winner(s@),
{
    match row_winner_of(s) {
        None => match col_winner_of(s) {
            None => diag_winner_of(s),
            Some(piece) => Some(piece),
        },
        Some(piece) => Some(piece),
    }
}

/// Whether no cell of a compact state is empty.
pub fn full_of(s: &[Piece; 9]) -> (r: bool)
    ensures
        r == full(s@),
{
    let f = s[0] != Piece::Empty && s[1] != Piece::Empty && s[2] != Piece::Empty && s[3]
        != Piece::Empty && s[4] != Piece::Empty && s[5] != Piece::Empty && s[6] != Piece::Empty
        && s[7] != Piece::Empty && s[8] != Piece::Empty;
    proof {
        if f {
            assert forall|i: int| 0 <= i < 9 implies s@[i] != Piece::Empty by {
                assert(s@[i] == s@[i]);
            }
        }
    }
    f
}

/// The value a player owning side `me` assigns to a state on first sight.
pub fn default_of(s: &[Piece; 9], me: Piece) -> (r: u64)
    ensures
        r == default_value(s@, me),
{
    if let Some(p) = winner_of(s) {
        if p == me {
            SCALE
        } else {
            0
        }
    } else if full_of(s) {
        0
    } else {
        HALF
    }
}

} // verus!
