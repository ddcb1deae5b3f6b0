//! The 3x3 playing board: placing pieces, win and draw detection, and the
//! compact nine-cell snapshot that the learning player keys its value table
//! by.

use vstd::prelude::*;

verus! {

use crate::states;

/// Marker held by one cell of the board.
#[derive(Copy, Clone, Debug, Hash, PartialEq, Eq, Structural)]
pub enum Piece {
    Empty,
    X,
    O,
}

/// The playing board, a 3x3 grid of cells.
pub struct Board {
    pub squares: [[Piece; 3]; 3],
}

/// Errors a move request can fail with.
#[derive(Debug, PartialEq, Eq, Structural)]
pub enum BoardError {
    NotEmpty,
    InvalidPiece,
    InvalidMove,
}

/// Row selected by the first character of a move specification.
pub open spec fn row_of_char(c: char) -> Option<int> {
    if c == 'a' || c == 'A' {
        Some(0int)
    } else if c == 'b' || c == 'B' {
        Some(1int)
    } else if c == 'c' || c == 'C' {
        Some(2int)
    } else {
        None
    }
}

/// Column selected by the second character of a move specification.
pub open spec fn col_of_char(c: char) -> Option<int> {
    if c == '1' {
        Some(0int)
    } else if c == '2' {
        Some(1int)
    } else if c == '3' {
        Some(2int)
    } else {
        None
    }
}

/// Piece selected by a piece specification string: exactly one character,
/// either letter, in either case.
pub open spec fn piece_of_str(s: Seq<char>) -> Option<Piece> {
    if s.len() == 1 {
        if s[0] == 'X' || s[0] == 'x' {
            Some(Piece::X)
        } else if s[0] == 'O' || s[0] == 'o' {
            Some(Piece::O)
        } else {
            None
        }
    } else {
        None
    }
}

impl View for Board {
    type V = Seq<Piece>;

    /// A board is modelled by its flattened cell sequence, row by row.
    open spec fn view(&self) -> Seq<Piece> {
        seq![
            self.squares[0][0],
            self.squares[0][1],
            self.squares[0][2],
            self.squares[1][0],
            self.squares[1][1],
            self.squares[1][2],
            self.squares[2][0],
            self.squares[2][1],
            self.squares[2][2],
        ]
    }
}

impl Board {
    /// A fresh board with every cell empty.
    pub fn new() -> (b: Board)
        ensures
            b@ =~= states::state_of_index(0),
            forall|i: int| 0 <= i < 9 ==> b@[i] == Piece::Empty,
    {
        let b = Board {
            squares: [
                [Piece::Empty, Piece::Empty, Piece::Empty],
                [Piece::Empty, Piece::Empty, Piece::Empty],
                [Piece::Empty, Piece::Empty, Piece::Empty],
            ],
        };
        b
    }

    /// Apply a move given as strings: a row letter and column digit such as
    /// `"b2"`, and a piece letter. Rejects unknown coordinates, occupied
    /// cells and unknown pieces, in that order.
    pub fn player_move(&mut self, move_specification: &str, piece_specification: &str) -> (r:
        Result<(), BoardError>)
        requires
            move_specification@.len() >= 1,
            row_of_char(move_specification@[0]) is Some ==> move_specification@.len() >= 2,
        ensures
            match r {
                Ok(()) => {
                    &&& row_of_char(move_specification@[0]) is Some
                    &&& col_of_char(move_specification@[1]) is Some
                    &&& piece_of_str(piece_specification@) is Some
                    &&& {
                        let cell = 3 * row_of_char(move_specification@[0])->0 + col_of_char(
                            move_specification@[1],
                        )->0;
                        old(self)@[cell] == Piece::Empty && final(self)@ =~= old(self)@.update(
                            cell,
                            piece_of_str(piece_specification@)->0,
                        )
                    }
                },
                Err(BoardError::InvalidMove) => {
                    &&& final(self)@ == old(self)@
                    &&& (row_of_char(move_specification@[0]) is None || col_of_char(
                        move_specification@[1],
                    ) is None)
                },
                Err(BoardError::NotEmpty) => {
                    &&& final(self)@ == old(self)@
                    &&& row_of_char(move_specification@[0]) is Some
                    &&& col_of_char(move_specification@[1]) is Some
                    &&& old(self)@[3 * row_of_char(move_specification@[0])->0 + col_of_char(
                        move_specification@[1],
                    )->0] != Piece::Empty
                },
                Err(BoardError::InvalidPiece) => {
                    &&& final(self)@ == old(self)@
                    &&& row_of_char(move_specification@[0]) is Some
                    &&& col_of_char(move_specification@[1]) is Some
                    &&& old(self)@[3 * row_of_char(move_specification@[0])->0 + col_of_char(
                        move_specification@[1],
                    )->0] == Piece::Empty
                    &&& piece_of_str(piece_specification@) is None
                },
            },
    {
        let c0 = move_specification.get_char(0);
        let row: usize = if c0 == 'a' || c0 == 'A' {
            0
        } else if c0 == 'b' || c0 == 'B' {
            1
        } else if c0 == 'c' || c0 == 'C' {
            2
        } else {
            return Err(BoardError::InvalidMove);
        };
        let c1 = move_specification.get_char(1);
        let col: usize = if c1 == '1' {
            0
        } else if c1 == '2' {
            1
        } else if c1 == '3' {
            2
        } else {
            return Err(BoardError::InvalidMove);
        };
        self.make_move(row, col, piece_specification)
    }

    /// Apply a move given as numeric coordinates and a piece letter.
    pub fn make_move(&mut self, row: usize, col: usize, val: &str) -> (r: Result<
        (),
        BoardError,
    >)
        requires
            row < 3,
            col < 3,
        ensures
            match r {
                Ok(()) => {
                    &&& old(self)@[3 * row + col] == Piece::Empty
                    &&& piece_of_str(val@) is Some
                    &&& final(self)@ =~= old(self)@.update(3 * row + col, piece_of_str(val@)->0)
                },
                Err(BoardError::NotEmpty) => final(self)@ == old(self)@ && old(self)@[3 * row + col]
                    != Piece::Empty,
                Err(BoardError::InvalidPiece) => final(self)@ == old(self)@ && old(self)@[3 * row + col]
                    == Piece::Empty && piece_of_str(val@) is None,
                Err(BoardError::InvalidMove) => false,
            },
    {
        match self.squares[row][col] {
            Piece::Empty => {},
            Piece::X => { return Err(BoardError::NotEmpty) },
            Piece::O => { return Err(BoardError::NotEmpty) },
        }
        let piece = if val.unicode_len() == 1 {
            let c = val.get_char(0);
            if c == 'X' || c == 'x' {
                Piece::X
            } else if c == 'O' || c == 'o' {
                Piece::O
            } else {
                return Err(BoardError::InvalidPiece);
            }
        } else {
            return Err(BoardError::InvalidPiece);
        };
        let mut line: [Piece; 3] = self.squares[row];
        line[col] = piece;
        self.squares[row] = line;
        Ok(())
    }

    /// Place a piece directly, as the trainer does on behalf of a player.
    /// The caller is responsible for aiming at an empty cell.
    pub fn make_auto_player_move(&mut self, row: u8, col: u8, piece: Piece)
        requires
            row < 3,
            col < 3,
        ensures
            final(self)@ =~= old(self)@.update(3 * row + col, piece),
    {
        let mut line: [Piece; 3] = self.squares[row as usize];
        line[col as usize] = piece;
        self.squares[row as usize] = line;
    }

    /// Empty every cell.
    pub fn clear_board(&mut self)
        ensures
            forall|i: int| 0 <= i < 9 ==> final(self)@[i] == Piece::Empty,
    {
        let empty_line = [Piece::Empty, Piece::Empty, Piece::Empty];
        self.squares = [empty_line, empty_line, empty_line];
    }

    /// The flattened nine-cell snapshot of the board, row by row.
    pub fn get_compact_state(&self) -> (cs: [Piece; 9])
        ensures
            cs@ =~= self@,
    {
        let mut compact_state = [Piece::Empty; 9];
        compact_state[0] = self.squares[0][0];
        compact_state[1] = self.squares[0][1];
        compact_state[2] = self.squares[0][2];
        compact_state[3] = self.squares[1][0];
        compact_state[4] = self.squares[1][1];
        compact_state[5] = self.squares[1][2];
        compact_state[6] = self.squares[2][0];
        compact_state[7] = self.squares[2][1];
        compact_state[8] = self.squares[2][2];
        compact_state
    }

    /// Whether every cell is occupied.
    pub fn is_full(&self) -> (r: bool)
        ensures
            r == states::full(self@),
    {
        let full = self.squares[0][0] != Piece::Empty && self.squares[0][1] != Piece::Empty
            && self.squares[0][2] != Piece::Empty && self.squares[1][0] != Piece::Empty
            && self.squares[1][1] != Piece::Empty && self.squares[1][2] != Piece::Empty
            && self.squares[2][0] != Piece::Empty && self.squares[2][1] != Piece::Empty
            && self.squares[2][2] != Piece::Empty;
        proof {
            if full {
                assert forall|i: int| 0 <= i < 9 implies self@[i] != Piece::Empty by {
                    assert(self@[i] == self@[i]);
                }
            }
        }
        full
    }

    /// Winner of the current position, if any: columns checked first, then
    /// rows, then diagonals.
    pub fn check_winner(&self) -> (r: Option<Piece>)
        ensures
            r == states::board_winner(self@),
    {
        if let Some(winner) = self.check_winner_col() {
            return Some(winner);
        }
        if let Some(winner) = self.check_winner_row() {
            return Some(winner);
        }
        if let Some(winner) = self.check_winner_diag() {
            return Some(winner);
        }
        None
    }

    /// Winner by columns, if any, left column checked first.
    pub fn check_winner_col(&self) -> (r: Option<Piece>)
        ensures
            r == states::col_winner(self@),
    {
        if self.squares[0][0] == self.squares[1][0] && self.squares[0][0] == self.squares[2][0]
            && self.squares[0][0] != Piece::Empty {
            return Some(self.squares[0][0]);
        }
        if self.squares[0][1] == self.squares[1][1] && self.squares[0][1] == self.squares[2][1]
            && self.squares[0][1] != Piece::Empty {
            return Some(self.squares[0][1]);
        }
        if self.squares[0][2] == self.squares[1][2] && self.squares[0][2] == self.squares[2][2]
            && self.squares[0][2] != Piece::Empty {
            return Some(self.squares[0][2]);
        }
        None
    }

    /// Winner by rows, if any, top row checked first.
    pub fn check_winner_row(&self) -> (r: Option<Piece>)
        ensures
            r == states::row_winner(self@),
    {
        if self.squares[0][0] == self.squares[0][1] && self.squares[0][0] == self.squares[0][2]
            && self.squares[0][0] != Piece::Empty {
            return Some(self.squares[0][0]);
        }
        if self.squares[1][0] == self.squares[1][1] && self.squares[1][0] == self.squares[1][2]
            && self.squares[1][0] != Piece::Empty {
            return Some(self.squares[1][0]);
        }
        if self.squares[2][0] == self.squares[2][1] && self.squares[2][0] == self.squares[2][2]
            && self.squares[2][0] != Piece::Empty {
            return Some(self.squares[2][0]);
        }
        None
    }

    /// Winner by diagonals, if any, the main diagonal checked first.
    pub fn check_winner_diag(&self) -> (r: Option<Piece>)
        ensures
            r == states::diag_winner(self@),
    {
        if self.squares[0][0] == self.squares[1][1] && self.squares[0][0] == self.squares[2][2]
            && self.squares[0][0] != Piece::Empty {
            return Some(self.squares[0][0]);
        }
        if self.squares[2][0] == self.squares[1][1] && self.squares[2][0] == self.squares[0][2]
            && self.squares[2][0] != Piece::Empty {
            return Some(self.squares[2][0]);
        }
        None
    }
}

} // verus!
