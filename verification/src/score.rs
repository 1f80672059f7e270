//! The position evaluator: a material-and-position heuristic from a
//! designated player's perspective, with sentinel extreme values for won and
//! lost positions. Scores are integers: every term of the heuristic is
//! integral, and the sentinels dominate any sum of material terms.

use vstd::prelude::*;
use crate::board::{opposite, PieceColor, PieceType, Position};
use crate::state::{
    count_color, count_upto, spec_in_middle, CheckersState, StateModel,
};

verus! {

/// The score of a position the perspective player has certainly won: the
/// opponent keeps no piece.
pub const SCORE_WIN: i64 = 1_000_000_000;

/// The score of a position the perspective player has certainly lost: it
/// keeps no piece.
pub const SCORE_LOSS: i64 = -1_000_000_000;

/// What one square contributes to the score from `p`'s perspective: a Man
/// counts 50, a King 75 with 2 more in the board's interior; own pieces add,
/// opposing pieces subtract.
pub open spec fn square_score(s: StateModel, p: PieceColor, row: int, col: int) -> int {
    match s.at(row, col) {
        None => 0,
        Some(pc) => {
            let magnitude: int = if pc.typ == PieceType::Man {
                50
            } else {
                75 + (if spec_in_middle(s, Position { row: row as usize, col: col as usize }) {
                    2int
                } else {
                    0int
                })
            };
            if pc.col == p {
                magnitude
            } else {
                -magnitude
            }
        },
    }
}

/// The material score of the first `ncols` squares of row `row`.
pub open spec fn score_in_row_upto(s: StateModel, p: PieceColor, row: int, ncols: int) -> int
    decreases ncols,
{
    if ncols <= 0 {
        0
    } else {
        score_in_row_upto(s, p, row, ncols - 1) + square_score(s, p, row, ncols - 1)
    }
}

/// The material score of the first `nrows` rows.
pub open spec fn score_rows_upto(s: StateModel, p: PieceColor, nrows: int) -> int
    decreases nrows,
{
    if nrows <= 0 {
        0
    } else {
        score_rows_upto(s, p, nrows - 1) + score_in_row_upto(s, p, nrows - 1, s.dim)
    }
}

/// The material score of the whole board from `p`'s perspective.
pub open spec fn material_score(s: StateModel, p: PieceColor) -> int {
    score_rows_upto(s, p, s.dim)
}

/// The evaluation of a state from `p`'s perspective: the minimal sentinel
/// when `p` keeps no piece, the maximal sentinel when the opponent keeps no
/// piece (a side with no pieces at all counts as lost first), and the
/// material score otherwise.
pub open spec fn spec_score_state(s: StateModel, p: PieceColor) -> int {
    if count_color(s.board, p) == 0 {
        SCORE_LOSS as int
    } else if count_color(s.board, opposite(p)) == 0 {
        SCORE_WIN as int
    } else {
        material_score(s, p)
    }
}

/// One square contributes at most 77 in magnitude.
proof fn lemma_square_score_bound(s: StateModel, p: PieceColor, row: int, col: int)
    ensures
        -77 <= square_score(s, p, row, col) <= 77,
{
}

/// A row prefix contributes at most 77 per square.
proof fn lemma_row_score_bound(s: StateModel, p: PieceColor, row: int, ncols: int)
    requires
        ncols >= 0,
    ensures
        -77 * ncols <= score_in_row_upto(s, p, row, ncols) <= 77 * ncols,
    decreases ncols,
{
    if ncols > 0 {
        lemma_row_score_bound(s, p, row, ncols - 1);
        lemma_square_score_bound(s, p, row, ncols - 1);
    }
}

/// The rows prefix contributes at most `77 * 256` per row of a well-formed
/// board.
proof fn lemma_rows_score_bound(s: StateModel, p: PieceColor, nrows: int)
    requires
        s.wf(),
        0 <= nrows,
    ensures
        -19712 * nrows <= score_rows_upto(s, p, nrows) <= 19712 * nrows,
    decreases nrows,
{
    if nrows > 0 {
        lemma_rows_score_bound(s, p, nrows - 1);
        lemma_row_score_bound(s, p, nrows - 1, s.dim);
    }
}

/// One square's contribution seen from one player is the negation of its
/// contribution seen from the other.
proof fn lemma_square_score_antisymmetric(s: StateModel, p: PieceColor, row: int, col: int)
    ensures
        square_score(s, p, row, col) == -square_score(s, opposite(p), row, col),
{
}

/// A row prefix's material is antisymmetric in the perspective.
proof fn lemma_row_score_antisymmetric(s: StateModel, p: PieceColor, row: int, ncols: int)
    ensures
        score_in_row_upto(s, p, row, ncols) == -score_in_row_upto(s, opposite(p), row, ncols),
    decreases ncols,
{
    if ncols > 0 {
        lemma_row_score_antisymmetric(s, p, row, ncols - 1);
        lemma_square_score_antisymmetric(s, p, row, ncols - 1);
    }
}

/// The rows prefix's material is antisymmetric in the perspective.
proof fn lemma_rows_score_antisymmetric(s: StateModel, p: PieceColor, nrows: int)
    ensures
        score_rows_upto(s, p, nrows) == -score_rows_upto(s, opposite(p), nrows),
    decreases nrows,
{
    if nrows > 0 {
        lemma_rows_score_antisymmetric(s, p, nrows - 1);
        lemma_row_score_antisymmetric(s, p, nrows - 1, s.dim);
    }
}

/// The evaluation depends only on the board and the designated perspective —
/// never on whose turn it is — and the material part scored from one player
/// is the exact negation of the same position scored from the other. (The
/// sentinel cases are not negations of each other: each side's loss is
/// detected on its own piece count.)
pub proof fn lemma_material_antisymmetric(s: StateModel, p: PieceColor)
    ensures
        material_score(s, p) == -material_score(s, opposite(p)),
{
    lemma_rows_score_antisymmetric(s, p, s.dim);
}

/// The evaluation always lies between the two sentinels; in particular each
/// sentinel dominates every finite combination of material terms.
pub proof fn lemma_score_bounds(s: StateModel, p: PieceColor)
    requires
        s.wf(),
    ensures
        SCORE_LOSS <= spec_score_state(s, p) <= SCORE_WIN,
{
    lemma_rows_score_bound(s, p, s.dim);
}

impl CheckersState {
    /// The material-and-position heuristic from `player`'s perspective, with
    /// sentinel extremes: the minimal score when `player` keeps no piece and
    /// the maximal score when the opponent keeps none, whatever else stands
    /// on the board.
    #[verifier::loop_isolation(false)]
    pub fn score_state(&self, player: PieceColor) -> (r: i64)
        requires
            self@.wf(),
        ensures
            r as int == spec_score_state(self@, player),
            count_color(self@.board, player) == 0 ==> r == SCORE_LOSS,
            count_color(self@.board, player) != 0 && count_color(
                self@.board,
                opposite(player),
            ) == 0 ==> r == SCORE_WIN,
            SCORE_LOSS <= r <= SCORE_WIN,
    {
        let mut my_count: usize = 0;
        let mut opp_count: usize = 0;
        let mut material: i64 = 0;
        let mut idx: usize = 0;
        let mut row: usize = 0;
        while row < self.dim
            invariant
                row <= self.dim,
                idx == row * self.dim,
                idx <= 65536,
                my_count <= idx,
                opp_count <= idx,
                my_count == count_upto(self.board@, player, idx as int),
                opp_count == count_upto(self.board@, opposite(player), idx as int),
                material == score_rows_upto(self@, player, row as int),
                -77 * idx <= material <= 77 * idx,
            decreases self.dim - row,
        {
            let mut col: usize = 0;
            while col < self.dim
                invariant
                    row < self.dim,
                    col <= self.dim,
                    idx == row * self.dim + col,
                    idx <= 65536,
                    my_count <= idx,
                    opp_count <= idx,
                    my_count == count_upto(self.board@, player, idx as int),
                    opp_count == count_upto(self.board@, opposite(player), idx as int),
                    material == score_rows_upto(self@, player, row as int) + score_in_row_upto(
                        self@,
                        player,
                        row as int,
                        col as int,
                    ),
                    -77 * idx <= material <= 77 * idx,
                decreases self.dim - col,
            {
                proof {
                    assert(idx < self.dim * self.dim && self.dim * self.dim <= 65536)
                        by (nonlinear_arith)
                        requires
                            idx == row * self.dim + col,
                            row < self.dim,
                            col < self.dim,
                            self.dim <= 256,
                    ;
                }
                let sq = self.board[idx];
                if let Some(pc) = sq {
                    let mut magnitude: i64 = if matches!(pc.typ, PieceType::Man) {
                        50
                    } else {
                        75
                    };
                    if matches!(pc.typ, PieceType::King) && self.is_in_middle(
                        Position { row, col },
                    ) {
                        magnitude = magnitude + 2;
                    }
                    if pc.col == player {
                        my_count = my_count + 1;
                        material = material + magnitude;
                    } else {
                        opp_count = opp_count + 1;
                        material = material - magnitude;
                    }
                }
                proof {
                    assert(self@.at(row as int, col as int) == self.board@[idx as int]);
                }
                idx = idx + 1;
                col = col + 1;
            }
            proof {
                assert(row as int * self.dim + self.dim == (row + 1) * self.dim)
                    by (nonlinear_arith);
            }
            row = row + 1;
        }
        proof {
            assert(idx == self.dim * self.dim);
            assert(idx as int == self.board@.len() as int);
        }
        if my_count == 0 {
            return SCORE_LOSS;
        }
        if opp_count == 0 {
            return SCORE_WIN;
        }
        material
    }
}

} // verus!
