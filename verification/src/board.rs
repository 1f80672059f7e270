//! The elementary data model: piece colors and ranks, board positions, and
//! elementary moves (a diagonal step of distance 1, or a jump of distance 2
//! whose midpoint square holds the captured piece).

use vstd::prelude::*;

verus! {

/// One of the two players. Black conventionally starts at the low-numbered
/// rows and moves toward row `dim - 1`; Red starts at the high-numbered rows
/// and moves toward row 0.
#[derive(Clone, Copy, Debug, PartialEq, Eq, Structural)]
pub enum PieceColor {
    Black,
    Red,
}

/// The rank of a piece: a Man moves only forward for its color, a King moves
/// in all four diagonal directions.
#[derive(Clone, Copy, Debug, PartialEq, Eq, Structural)]
pub enum PieceType {
    Man,
    King,
}

/// A piece on the board: its owner and its rank.
#[derive(Clone, Copy, Debug, PartialEq, Eq, Structural)]
pub struct CheckersPiece {
    pub col: PieceColor,
    pub typ: PieceType,
}

/// A square of the board, 0-indexed.
#[derive(Clone, Copy, Debug, PartialEq, Eq, Structural)]
pub struct Position {
    pub row: usize,
    pub col: usize,
}

/// An elementary diagonal relocation: either a step (row and column each
/// change by 1) or a jump (each changes by 2, capturing the midpoint piece).
#[derive(Clone, Copy, Debug, PartialEq, Eq, Structural)]
pub struct Move {
    pub from: Position,
    pub to: Position,
}

/// The other player.
pub open spec fn opposite(c: PieceColor) -> PieceColor {
    match c {
        PieceColor::Black => PieceColor::Red,
        PieceColor::Red => PieceColor::Black,
    }
}

/// A jump relocates by exactly 2 in each coordinate.
pub open spec fn spec_is_jump(m: Move) -> bool {
    &&& (m.from.row + 2 == m.to.row || m.to.row + 2 == m.from.row)
    &&& (m.from.col + 2 == m.to.col || m.to.col + 2 == m.from.col)
}

/// A step relocates by exactly 1 in each coordinate.
pub open spec fn spec_is_step(m: Move) -> bool {
    &&& (m.from.row + 1 == m.to.row || m.to.row + 1 == m.from.row)
    &&& (m.from.col + 1 == m.to.col || m.to.col + 1 == m.from.col)
}

/// The square halfway between the endpoints of a jump: the captured square.
pub open spec fn spec_middle(m: Move) -> Position {
    Position {
        row: ((m.from.row + m.to.row) / 2) as usize,
        col: ((m.from.col + m.to.col) / 2) as usize,
    }
}

impl Position {
    pub fn new(row: usize, col: usize) -> (r: Self)
        ensures
            r == (Position { row, col }),
    {
        Position { row, col }
    }
}

impl Move {
    /// Whether this move is a jump (capture), derived from its endpoints.
    pub fn is_jump(&self) -> (r: bool)
        ensures
            r == spec_is_jump(*self),
    {
        let row_diff: usize = if self.from.row >= self.to.row {
            self.from.row - self.to.row
        } else {
            self.to.row - self.from.row
        };
        let col_diff: usize = if self.from.col >= self.to.col {
            self.from.col - self.to.col
        } else {
            self.to.col - self.from.col
        };
        row_diff == 2 && col_diff == 2
    }

    /// The captured square of a jump; `None` for any other move.
    pub fn middle_pos(&self) -> (r: Option<Position>)
        ensures
            r == if spec_is_jump(*self) {
                Some(spec_middle(*self))
            } else {
                None::<Position>
            },
    {
        if !self.is_jump() {
            return None;
        }
        let mid_row: usize = if self.from.row < self.to.row {
            self.from.row + 1
        } else {
            self.from.row - 1
        };
        let mid_col: usize = if self.from.col < self.to.col {
            self.from.col + 1
        } else {
            self.from.col - 1
        };
        Some(Position { row: mid_row, col: mid_col })
    }
}

} // verus!
