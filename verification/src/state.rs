//! The board position: a square grid of optional pieces plus whose turn it
//! is, with the queries the move generator and the evaluator build on.
//!
//! The board is stored as one flat vector in row-major order; square
//! `(row, col)` lives at index `row * dim + col`. The mathematical model of a
//! state is [`StateModel`], reached through the view operator `@`.

use vstd::prelude::*;
use vstd::pervasive::VecAdditionalExecFns;
use crate::board::{
    opposite, spec_is_jump, spec_is_step, spec_middle, CheckersPiece, Move, PieceColor,
    PieceType, Position,
};

verus! {

/// The mathematical model of a position: the side to move, the board
/// dimension, and the flat row-major grid of squares.
#[verifier::ext_equal]
pub struct StateModel {
    pub turn: PieceColor,
    pub dim: int,
    pub board: Seq<Option<CheckersPiece>>,
}

/// A board position: the side to move and a `dim` by `dim` grid of optional
/// pieces, flattened row-major.
pub struct CheckersState {
    pub turn: PieceColor,
    pub dim: usize,
    pub board: Vec<Option<CheckersPiece>>,
}

impl View for CheckersState {
    type V = StateModel;

    open spec fn view(&self) -> StateModel {
        StateModel { turn: self.turn, dim: self.dim as int, board: self.board@ }
    }
}

impl StateModel {
    /// Well-formed: a square board of a bounded dimension. The bound keeps
    /// every index and every score within machine integers.
    pub open spec fn wf(self) -> bool {
        &&& 2 <= self.dim <= 256
        &&& self.board.len() == self.dim * self.dim
    }

    pub open spec fn in_bounds(self, row: int, col: int) -> bool {
        0 <= row < self.dim && 0 <= col < self.dim
    }

    pub open spec fn pos_in_bounds(self, pos: Position) -> bool {
        self.in_bounds(pos.row as int, pos.col as int)
    }

    /// The square at `(row, col)`.
    pub open spec fn at(self, row: int, col: int) -> Option<CheckersPiece> {
        self.board[row * self.dim + col]
    }

    pub open spec fn at_pos(self, pos: Position) -> Option<CheckersPiece> {
        self.at(pos.row as int, pos.col as int)
    }
}

/// Whether a square holds a piece of color `c`.
pub open spec fn is_piece_of(sq: Option<CheckersPiece>, c: PieceColor) -> bool {
    match sq {
        Some(p) => p.col == c,
        None => false,
    }
}

/// How many pieces of color `c` stand on the first `n` squares of the flat
/// board.
pub open spec fn count_upto(board: Seq<Option<CheckersPiece>>, c: PieceColor, n: int) -> nat
    decreases n,
{
    if n <= 0 {
        0
    } else {
        count_upto(board, c, n - 1) + (if is_piece_of(board[n - 1], c) {
            1nat
        } else {
            0nat
        })
    }
}

/// How many pieces of color `c` stand on the board.
pub open spec fn count_color(board: Seq<Option<CheckersPiece>>, c: PieceColor) -> nat {
    count_upto(board, c, board.len() as int)
}

/// Replacing one square changes the count of each color by the contribution
/// of the new square minus that of the old one.
pub proof fn lemma_count_update(
    board: Seq<Option<CheckersPiece>>,
    c: PieceColor,
    i: int,
    v: Option<CheckersPiece>,
    n: int,
)
    requires
        0 <= i < board.len(),
        n <= board.len(),
    ensures
        count_upto(board.update(i, v), c, n) == count_upto(board, c, n) + (if i < n {
            (if is_piece_of(v, c) { 1int } else { 0int }) - (if is_piece_of(board[i], c) {
                1int
            } else {
                0int
            })
        } else {
            0int
        }),
    decreases n,
{
    if n > 0 {
        lemma_count_update(board, c, i, v, n - 1);
    }
}

/// If a color has no piece among the first `n` squares, every one of those
/// squares fails to hold a piece of that color.
pub proof fn lemma_count_zero_no_piece(
    board: Seq<Option<CheckersPiece>>,
    c: PieceColor,
    n: int,
)
    requires
        count_upto(board, c, n) == 0,
    ensures
        forall|i: int| 0 <= i < n ==> !is_piece_of(board[i], c),
    decreases n,
{
    if n > 0 {
        lemma_count_zero_no_piece(board, c, n - 1);
    }
}

/// Whether a piece may move in vertical direction `dr` (-1 toward row 0,
/// 1 toward row `dim - 1`): Kings go both ways, Men only forward for their
/// color (Black increasing rows, Red decreasing rows).
pub open spec fn spec_can_go(p: CheckersPiece, dr: int) -> bool {
    ||| p.typ == PieceType::King
    ||| (p.col == PieceColor::Black && dr == 1)
    ||| (p.col == PieceColor::Red && dr == -1)
}

pub open spec fn mk_move(pos: Position, row: int, col: int) -> Move {
    Move { from: pos, to: Position { row: row as usize, col: col as usize } }
}

/// The candidate move of distance `dist` from `pos` in direction `(dr, dc)`,
/// kept only if the destination is on the board (occupancy not yet checked).
pub open spec fn dir_candidate(s: StateModel, pos: Position, dr: int, dc: int, dist: int)
    -> Seq<Move> {
    let row = pos.row + dr * dist;
    let col = pos.col + dc * dist;
    if s.in_bounds(row, col) {
        seq![mk_move(pos, row, col)]
    } else {
        Seq::empty()
    }
}

/// Geometrically reachable destinations at distance `dist` in every direction
/// the piece at `pos` may take, in a fixed order (upward directions first,
/// left before right), filtered only by board bounds. Empty unless `pos`
/// holds a piece of `turn`.
pub open spec fn spec_candidate_moves(s: StateModel, pos: Position, dist: int, turn: PieceColor)
    -> Seq<Move> {
    match s.at_pos(pos) {
        None => Seq::empty(),
        Some(p) => {
            if p.col != turn {
                Seq::empty()
            } else {
                (if spec_can_go(p, -1) {
                    dir_candidate(s, pos, -1, -1, dist) + dir_candidate(s, pos, -1, 1, dist)
                } else {
                    Seq::empty()
                }) + (if spec_can_go(p, 1) {
                    dir_candidate(s, pos, 1, -1, dist) + dir_candidate(s, pos, 1, 1, dist)
                } else {
                    Seq::empty()
                })
            }
        },
    }
}

/// A step in direction `(dr, dc)` is valid when its destination is on the
/// board and empty.
pub open spec fn step_ok(s: StateModel, pos: Position, dr: int, dc: int) -> bool {
    &&& s.in_bounds(pos.row + dr, pos.col + dc)
    &&& s.at(pos.row + dr, pos.col + dc) is None
}

pub open spec fn dir_step(s: StateModel, pos: Position, dr: int, dc: int) -> Seq<Move> {
    if step_ok(s, pos, dr, dc) {
        seq![mk_move(pos, pos.row + dr, pos.col + dc)]
    } else {
        Seq::empty()
    }
}

/// A jump in direction `(dr, dc)` is valid when its landing square is on the
/// board and empty and the square jumped over holds an opposing piece.
pub open spec fn jump_ok(s: StateModel, pos: Position, dr: int, dc: int, turn: PieceColor)
    -> bool {
    &&& s.in_bounds(pos.row + 2 * dr, pos.col + 2 * dc)
    &&& s.at(pos.row + 2 * dr, pos.col + 2 * dc) is None
    &&& is_piece_of(s.at(pos.row + dr, pos.col + dc), opposite(turn))
}

pub open spec fn dir_jump(s: StateModel, pos: Position, dr: int, dc: int, turn: PieceColor)
    -> Seq<Move> {
    if jump_ok(s, pos, dr, dc, turn) {
        seq![mk_move(pos, pos.row + 2 * dr, pos.col + 2 * dc)]
    } else {
        Seq::empty()
    }
}

/// The valid single steps of the piece at `pos`: candidates of distance 1
/// whose destination is empty. Empty unless `pos` holds a piece of `turn`.
pub open spec fn spec_valid_steps(s: StateModel, pos: Position, turn: PieceColor) -> Seq<Move> {
    match s.at_pos(pos) {
        None => Seq::empty(),
        Some(p) => {
            if p.col != turn {
                Seq::empty()
            } else {
                (if spec_can_go(p, -1) {
                    dir_step(s, pos, -1, -1) + dir_step(s, pos, -1, 1)
                } else {
                    Seq::empty()
                }) + (if spec_can_go(p, 1) {
                    dir_step(s, pos, 1, -1) + dir_step(s, pos, 1, 1)
                } else {
                    Seq::empty()
                })
            }
        },
    }
}

/// The valid jumps of the piece at `pos`: candidates of distance 2 whose
/// landing square is empty and whose midpoint holds an opposing piece. Empty
/// unless `pos` holds a piece of `turn`.
pub open spec fn spec_valid_jumps(s: StateModel, pos: Position, turn: PieceColor) -> Seq<Move> {
    match s.at_pos(pos) {
        None => Seq::empty(),
        Some(p) => {
            if p.col != turn {
                Seq::empty()
            } else {
                (if spec_can_go(p, -1) {
                    dir_jump(s, pos, -1, -1, turn) + dir_jump(s, pos, -1, 1, turn)
                } else {
                    Seq::empty()
                }) + (if spec_can_go(p, 1) {
                    dir_jump(s, pos, 1, -1, turn) + dir_jump(s, pos, 1, 1, turn)
                } else {
                    Seq::empty()
                })
            }
        },
    }
}

/// The flat index of a square.
pub open spec fn sq_index(s: StateModel, pos: Position) -> int {
    pos.row * s.dim + pos.col
}

/// The back rank for the side to move: the row on which its Men promote.
pub open spec fn spec_final_row(s: StateModel, row: int) -> bool {
    match s.turn {
        PieceColor::Black => row == s.dim - 1,
        PieceColor::Red => row == 0,
    }
}

/// A move the engine may be asked to apply: drawn from its own move
/// generation, so both endpoints are on the board, the moved piece belongs to
/// the side to move, the destination is empty, and the move is a diagonal
/// step or a jump over an opposing piece.
pub open spec fn spec_move_applicable(s: StateModel, m: Move) -> bool {
    &&& s.pos_in_bounds(m.from)
    &&& s.pos_in_bounds(m.to)
    &&& is_piece_of(s.at_pos(m.from), s.turn)
    &&& s.at_pos(m.to) is None
    &&& (spec_is_step(m) || (spec_is_jump(m) && is_piece_of(
        s.at_pos(spec_middle(m)),
        opposite(s.turn),
    )))
}

/// Whether applying `m` promotes the moved piece: a Man landing on the back
/// rank of the side to move becomes a King.
pub open spec fn spec_promoted(s: StateModel, m: Move) -> bool {
    &&& spec_final_row(s, m.to.row as int)
    &&& match s.at_pos(m.from) {
        Some(p) => p.typ == PieceType::Man,
        None => false,
    }
}

/// The board after applying `m`, turn not yet switched: the piece relocated,
/// the jumped-over piece removed, and a promotion applied.
pub open spec fn spec_board_after(s: StateModel, m: Move) -> StateModel {
    let moved = s.board.update(sq_index(s, m.to), s.at_pos(m.from)).update(
        sq_index(s, m.from),
        None,
    );
    let after_capture = if spec_is_jump(m) {
        moved.update(sq_index(s, spec_middle(m)), None)
    } else {
        moved
    };
    let after_promotion = if spec_promoted(s, m) {
        after_capture.update(
            sq_index(s, m.to),
            Some(CheckersPiece { col: s.turn, typ: PieceType::King }),
        )
    } else {
        after_capture
    };
    StateModel { turn: s.turn, dim: s.dim, board: after_promotion }
}

/// The captured square reported for `m`: the midpoint of a jump.
pub open spec fn spec_captured_pos(m: Move) -> Option<Position> {
    if spec_is_jump(m) {
        Some(spec_middle(m))
    } else {
        None
    }
}

/// The mandatory continuations after `m`: the further jumps of the same piece
/// from its landing square, unless the move was a plain step or the piece was
/// promoted (promotion always ends the chain).
pub open spec fn spec_continuations(s: StateModel, m: Move) -> Seq<Move> {
    if spec_is_jump(m) && !spec_promoted(s, m) {
        spec_valid_jumps(spec_board_after(s, m), m.to, s.turn)
    } else {
        Seq::empty()
    }
}

/// The state after applying `m`: the turn passes to the opponent exactly when
/// no mandatory continuation remains.
pub open spec fn spec_next(s: StateModel, m: Move) -> StateModel {
    StateModel {
        turn: if spec_continuations(s, m).len() == 0 {
            opposite(s.turn)
        } else {
            s.turn
        },
        dim: s.dim,
        board: spec_board_after(s, m).board,
    }
}

/// The jumps available to the side to move from the first `ncols` squares of
/// row `row`, in column order.
pub open spec fn captures_in_row_upto(s: StateModel, row: int, ncols: int) -> Seq<Move>
    decreases ncols,
{
    if ncols <= 0 {
        Seq::empty()
    } else {
        captures_in_row_upto(s, row, ncols - 1) + spec_valid_jumps(
            s,
            Position { row: row as usize, col: (ncols - 1) as usize },
            s.turn,
        )
    }
}

/// The jumps available to the side to move from the first `nrows` rows, in
/// row-major order.
pub open spec fn captures_rows_upto(s: StateModel, nrows: int) -> Seq<Move>
    decreases nrows,
{
    if nrows <= 0 {
        Seq::empty()
    } else {
        captures_rows_upto(s, nrows - 1) + captures_in_row_upto(s, nrows - 1, s.dim)
    }
}

/// Every jump available to the side to move, over the whole board in
/// row-major order. A non-empty result signals the mandatory-capture rule.
pub open spec fn spec_possible_captures(s: StateModel) -> Seq<Move> {
    captures_rows_upto(s, s.dim)
}

/// Whether `player` has any legal move at all: some square holds one of its
/// pieces with a valid step or jump.
pub open spec fn spec_possible_to_move(s: StateModel, player: PieceColor) -> bool {
    exists|pos: Position|
        s.pos_in_bounds(pos) && (#[trigger] spec_valid_jumps(s, pos, player).len() > 0
            || spec_valid_steps(s, pos, player).len() > 0)
}

/// A player loses when it owns no pieces, or owns pieces but has no legal
/// move.
pub open spec fn spec_is_loser(s: StateModel, player: PieceColor) -> bool {
    count_color(s.board, player) == 0 || !spec_possible_to_move(s, player)
}

/// The winner, if either side has lost (Black is tested first).
pub open spec fn spec_winner(s: StateModel) -> Option<PieceColor> {
    if spec_is_loser(s, PieceColor::Black) {
        Some(PieceColor::Red)
    } else if spec_is_loser(s, PieceColor::Red) {
        Some(PieceColor::Black)
    } else {
        None
    }
}

pub open spec fn spec_game_over(s: StateModel) -> bool {
    spec_winner(s) is Some
}

/// Whether a square lies in the board's interior, at least two squares from
/// every edge.
pub open spec fn spec_in_middle(s: StateModel, pos: Position) -> bool {
    &&& pos.row >= 2
    &&& pos.row + 2 < s.dim
    &&& pos.col >= 2
    &&& pos.col + 2 < s.dim
}

/// Whether every occupied square lies on checkerboard parity `par` (the
/// parity of row plus column).
pub open spec fn parity_ok(s: StateModel, par: int) -> bool {
    forall|pos: Position|
        s.pos_in_bounds(pos) && #[trigger] s.at_pos(pos) is Some ==> (pos.row + pos.col) % 2
            == par
}

/// The standard starting layout occupies only squares of even parity.
pub proof fn lemma_initial_layout_parity(s: StateModel)
    requires
        s.wf(),
        forall|row: int, col: int|
            0 <= row < s.dim && 0 <= col < s.dim ==> #[trigger] s.at(row, col)
                == spec_initial_piece(s.dim, row, col),
    ensures
        parity_ok(s, 0),
{
    assert forall|pos: Position|
        s.pos_in_bounds(pos) && #[trigger] s.at_pos(pos) is Some implies (pos.row + pos.col)
        % 2 == 0 by {
        assert(s.at(pos.row as int, pos.col as int) == spec_initial_piece(
            s.dim,
            pos.row as int,
            pos.col as int,
        ));
    }
}

/// A move keeps every occupied square on the one checkerboard parity: the
/// relocation is diagonal, so the landing square has the parity of the
/// source, and a capture only empties a square.
pub proof fn lemma_update_preserves_parity(s: StateModel, m: Move, par: int)
    requires
        s.wf(),
        spec_move_applicable(s, m),
        parity_ok(s, par),
    ensures
        parity_ok(spec_next(s, m), par),
{
    let s2 = spec_next(s, m);
    let dim = s.dim;
    let mid = spec_middle(m);
    assert forall|pos: Position|
        s2.pos_in_bounds(pos) && #[trigger] s2.at_pos(pos) is Some implies (pos.row + pos.col)
        % 2 == par by {
        assert(0 <= pos.row * dim + pos.col < s.board.len() && 0 <= m.from.row * dim
            + m.from.col < s.board.len() && 0 <= m.to.row * dim + m.to.col < s.board.len()
            && 0 <= mid.row * dim + mid.col < s.board.len()) by (nonlinear_arith)
            requires
                0 <= pos.row < dim,
                0 <= pos.col < dim,
                0 <= m.from.row < dim,
                0 <= m.from.col < dim,
                0 <= m.to.row < dim,
                0 <= m.to.col < dim,
                0 <= mid.row < dim,
                0 <= mid.col < dim,
                s.board.len() == dim * dim,
        ;
        lemma_index_injective(dim, pos.row as int, pos.col as int, m.from.row as int,
            m.from.col as int);
        lemma_index_injective(dim, pos.row as int, pos.col as int, m.to.row as int,
            m.to.col as int);
        lemma_index_injective(dim, pos.row as int, pos.col as int, mid.row as int,
            mid.col as int);
        lemma_index_injective(dim, m.from.row as int, m.from.col as int, m.to.row as int,
            m.to.col as int);
        lemma_index_injective(dim, mid.row as int, mid.col as int, m.from.row as int,
            m.from.col as int);
        lemma_index_injective(dim, mid.row as int, mid.col as int, m.to.row as int,
            m.to.col as int);
        if pos.row == m.to.row && pos.col == m.to.col {
            assert(s.at_pos(m.from) is Some);
            assert((m.from.row + m.from.col) % 2 == par);
            assert((pos.row + pos.col) % 2 == (m.from.row + m.from.col) % 2);
        } else if pos.row == m.from.row && pos.col == m.from.col {
            assert(s2.at_pos(pos) is None);
        } else if spec_is_jump(m) && pos.row == mid.row && pos.col == mid.col {
            assert(s2.at_pos(pos) is None);
        } else {
            assert(s2.at_pos(pos) == s.at_pos(pos));
        }
    }
}

/// Distinct in-bounds squares have distinct flat indices.
pub proof fn lemma_index_injective(dim: int, r1: int, c1: int, r2: int, c2: int)
    requires
        0 <= r1 < dim,
        0 <= c1 < dim,
        0 <= r2 < dim,
        0 <= c2 < dim,
    ensures
        (r1 * dim + c1 == r2 * dim + c2) <==> (r1 == r2 && c1 == c2),
{
    assert((r1 * dim + c1 == r2 * dim + c2) <==> (r1 == r2 && c1 == c2)) by (nonlinear_arith)
        requires
            0 <= r1 < dim,
            0 <= c1 < dim,
            0 <= r2 < dim,
            0 <= c2 < dim,
    ;
}

/// The standard starting piece for square `(row, col)` of a `dim` board:
/// pieces stand only on squares of one checkerboard parity, Black Men fill
/// the low rows, Red Men the high rows, with two empty rows between.
pub open spec fn spec_initial_piece(dim: int, row: int, col: int) -> Option<CheckersPiece> {
    if (row + (col % 2)) % 2 == 0 {
        if 2 * row + 2 < dim {
            Some(CheckersPiece { col: PieceColor::Black, typ: PieceType::Man })
        } else if 2 * row > dim {
            Some(CheckersPiece { col: PieceColor::Red, typ: PieceType::Man })
        } else {
            None
        }
    } else {
        None
    }
}

impl CheckersState {
    /// A fresh game: the standard starting layout, Black to move.
    pub fn new(dim: usize) -> (r: Self)
        requires
            2 <= dim <= 256,
        ensures
            r@.wf(),
            r@.dim == dim,
            r@.turn == PieceColor::Black,
            forall|row: int, col: int|
                0 <= row < dim && 0 <= col < dim ==> #[trigger] r@.at(row, col)
                    == spec_initial_piece(dim as int, row, col),
    {
        let mut board: Vec<Option<CheckersPiece>> = Vec::new();
        let mut row: usize = 0;
        while row < dim
            invariant
                2 <= dim <= 256,
                row <= dim,
                board@.len() == row * dim,
                forall|r0: int, c0: int|
                    0 <= r0 < row && 0 <= c0 < dim ==> #[trigger] board@[r0 * dim + c0]
                        == spec_initial_piece(dim as int, r0, c0),
            decreases dim - row,
        {
            let mut col: usize = 0;
            while col < dim
                invariant
                    2 <= dim <= 256,
                    row < dim,
                    col <= dim,
                    board@.len() == row * dim + col,
                    forall|r0: int, c0: int|
                        0 <= r0 < row && 0 <= c0 < dim ==> #[trigger] board@[r0 * dim + c0]
                            == spec_initial_piece(dim as int, r0, c0),
                    forall|c0: int|
                        0 <= c0 < col ==> #[trigger] board@[row as int * dim + c0]
                            == spec_initial_piece(dim as int, row as int, c0),
                decreases dim - col,
            {
                let sq: Option<CheckersPiece> = if (row + (col % 2)) % 2 == 0 {
                    if 2 * row + 2 < dim {
                        Some(CheckersPiece { col: PieceColor::Black, typ: PieceType::Man })
                    } else if 2 * row > dim {
                        Some(CheckersPiece { col: PieceColor::Red, typ: PieceType::Man })
                    } else {
                        None
                    }
                } else {
                    None
                };
                board.push(sq);
                proof {
                    assert(forall|r0: int, c0: int|
                        0 <= r0 < row && 0 <= c0 < dim ==> #[trigger] (r0 * dim + c0)
                            < row as int * dim + col) by (nonlinear_arith);
                }
                col = col + 1;
            }
            proof {
                assert(row as int * dim + dim == (row + 1) * dim) by (nonlinear_arith);
            }
            row = row + 1;
        }
        proof {
            assert(dim as int * dim == dim * dim);
        }
        CheckersState { turn: PieceColor::Black, dim, board }
    }

    /// The flat index of an in-bounds square.
    fn index_of(&self, row: usize, col: usize) -> (r: usize)
        requires
            self@.wf(),
            self@.in_bounds(row as int, col as int),
        ensures
            r == row * self@.dim + col,
            r < self.board@.len(),
    {
        proof {
            assert(row * self.dim + col < self.dim * self.dim && self.dim * self.dim <= 65536)
                by (nonlinear_arith)
                requires
                    row < self.dim,
                    col < self.dim,
                    self.dim <= 256,
            ;
        }
        row * self.dim + col
    }

    /// The piece at `pos`, if any.
    pub fn at(&self, pos: &Position) -> (r: Option<CheckersPiece>)
        requires
            self@.wf(),
            self@.pos_in_bounds(*pos),
        ensures
            r == self@.at_pos(*pos),
    {
        let i = self.index_of(pos.row, pos.col);
        self.board[i]
    }

    /// The destination square at distance `dist` in direction `(dr, dc)` from
    /// `pos`, if it lies on the board.
    fn dest_in_dir(&self, pos: &Position, dr: i32, dc: i32, dist: u32) -> (r: Option<Position>)
        requires
            self@.wf(),
            self@.pos_in_bounds(*pos),
            dr == -1 || dr == 1,
            dc == -1 || dc == 1,
            1 <= dist <= 2,
        ensures
            r == if self@.in_bounds(pos.row + dr * dist, pos.col + dc * dist) {
                Some(Position {
                    row: (pos.row + dr * dist) as usize,
                    col: (pos.col + dc * dist) as usize,
                })
            } else {
                None::<Position>
            },
    {
        let row: i64 = if dr == 1 {
            pos.row as i64 + dist as i64
        } else {
            pos.row as i64 - dist as i64
        };
        let col: i64 = if dc == 1 {
            pos.col as i64 + dist as i64
        } else {
            pos.col as i64 - dist as i64
        };
        if 0 <= row && row < self.dim as i64 && 0 <= col && col < self.dim as i64 {
            Some(Position { row: row as usize, col: col as usize })
        } else {
            None
        }
    }

    /// The valid step from `pos` in direction `(dr, dc)`, if any.
    fn try_step(&self, pos: &Position, dr: i32, dc: i32) -> (r: Option<Move>)
        requires
            self@.wf(),
            self@.pos_in_bounds(*pos),
            dr == -1 || dr == 1,
            dc == -1 || dc == 1,
        ensures
            r == if step_ok(self@, *pos, dr as int, dc as int) {
                Some(mk_move(*pos, pos.row + dr, pos.col + dc))
            } else {
                None::<Move>
            },
    {
        match self.dest_in_dir(pos, dr, dc, 1) {
            Some(dest) => {
                if self.at(&dest).is_none() {
                    Some(Move { from: *pos, to: dest })
                } else {
                    None
                }
            },
            None => None,
        }
    }

    /// The valid jump from `pos` in direction `(dr, dc)`, if any.
    fn try_jump(&self, pos: &Position, dr: i32, dc: i32, turn: PieceColor) -> (r: Option<Move>)
        requires
            self@.wf(),
            self@.pos_in_bounds(*pos),
            dr == -1 || dr == 1,
            dc == -1 || dc == 1,
        ensures
            r == if jump_ok(self@, *pos, dr as int, dc as int, turn) {
                Some(mk_move(*pos, pos.row + 2 * dr, pos.col + 2 * dc))
            } else {
                None::<Move>
            },
    {
        match self.dest_in_dir(pos, dr, dc, 2) {
            Some(dest) => {
                if self.at(&dest).is_some() {
                    return None;
                }
                match self.dest_in_dir(pos, dr, dc, 1) {
                    Some(mid) => {
                        match self.at(&mid) {
                            Some(q) => {
                                if q.col != turn {
                                    Some(Move { from: *pos, to: dest })
                                } else {
                                    None
                                }
                            },
                            None => None,
                        }
                    },
                    None => None,
                }
            },
            None => None,
        }
    }

    /// Geometrically reachable diagonal destinations at the given distance in
    /// every direction the piece's rank and color permit, filtered only by
    /// board bounds, not yet by occupancy. Empty unless `pos` holds a piece
    /// of `turn`.
    pub fn candidate_moves(&self, pos: &Position, distance: u32, turn: PieceColor)
        -> (r: Vec<Move>)
        requires
            self@.wf(),
            self@.pos_in_bounds(*pos),
            distance == 1 || distance == 2,
        ensures
            r@ == spec_candidate_moves(self@, *pos, distance as int, turn),
    {
        let mut out: Vec<Move> = Vec::new();
        if let Some(p) = self.at(pos) {
            if p.col == turn {
                if p.typ == PieceType::King || p.col == PieceColor::Red {
                    if let Some(d) = self.dest_in_dir(pos, -1, -1, distance) {
                        out.push(Move { from: *pos, to: d });
                    }
                    if let Some(d) = self.dest_in_dir(pos, -1, 1, distance) {
                        out.push(Move { from: *pos, to: d });
                    }
                }
                if p.typ == PieceType::King || p.col == PieceColor::Black {
                    if let Some(d) = self.dest_in_dir(pos, 1, -1, distance) {
                        out.push(Move { from: *pos, to: d });
                    }
                    if let Some(d) = self.dest_in_dir(pos, 1, 1, distance) {
                        out.push(Move { from: *pos, to: d });
                    }
                }
            }
        }
        proof {
            assert(out@ =~= spec_candidate_moves(self@, *pos, distance as int, turn));
        }
        out
    }

    /// The valid single steps of the piece at `pos`: destinations at distance
    /// 1 that are currently empty.
    pub fn valid_steps(&self, pos: &Position, turn: PieceColor) -> (r: Vec<Move>)
        requires
            self@.wf(),
            self@.pos_in_bounds(*pos),
        ensures
            r@ == spec_valid_steps(self@, *pos, turn),
    {
        let mut out: Vec<Move> = Vec::new();
        if let Some(p) = self.at(pos) {
            if p.col == turn {
                if p.typ == PieceType::King || p.col == PieceColor::Red {
                    if let Some(m) = self.try_step(pos, -1, -1) {
                        out.push(m);
                    }
                    if let Some(m) = self.try_step(pos, -1, 1) {
                        out.push(m);
                    }
                }
                if p.typ == PieceType::King || p.col == PieceColor::Black {
                    if let Some(m) = self.try_step(pos, 1, -1) {
                        out.push(m);
                    }
                    if let Some(m) = self.try_step(pos, 1, 1) {
                        out.push(m);
                    }
                }
            }
        }
        proof {
            assert(out@ =~= spec_valid_steps(self@, *pos, turn));
        }
        out
    }

    /// The valid jumps of the piece at `pos`: destinations at distance 2 that
    /// are empty, jumping over an opposing piece.
    pub fn valid_jumps(&self, pos: &Position, turn: PieceColor) -> (r: Vec<Move>)
        requires
            self@.wf(),
            self@.pos_in_bounds(*pos),
        ensures
            r@ == spec_valid_jumps(self@, *pos, turn),
    {
        let mut out: Vec<Move> = Vec::new();
        if let Some(p) = self.at(pos) {
            if p.col == turn {
                if p.typ == PieceType::King || p.col == PieceColor::Red {
                    if let Some(m) = self.try_jump(pos, -1, -1, turn) {
                        out.push(m);
                    }
                    if let Some(m) = self.try_jump(pos, -1, 1, turn) {
                        out.push(m);
                    }
                }
                if p.typ == PieceType::King || p.col == PieceColor::Black {
                    if let Some(m) = self.try_jump(pos, 1, -1, turn) {
                        out.push(m);
                    }
                    if let Some(m) = self.try_jump(pos, 1, 1, turn) {
                        out.push(m);
                    }
                }
            }
        }
        proof {
            assert(out@ =~= spec_valid_jumps(self@, *pos, turn));
        }
        out
    }

    /// Whether `row` is the back rank for the side to move.
    fn final_row(&self, row: usize) -> (r: bool)
        requires
            self@.wf(),
        ensures
            r == spec_final_row(self@, row as int),
    {
        match self.turn {
            PieceColor::Black => row == self.dim - 1,
            PieceColor::Red => row == 0,
        }
    }

    /// Applies one elementary move: relocates the piece, removes the captured
    /// piece of a jump, promotes a Man landing on the back rank, and reports
    /// `(captured square, promoted, mandatory continuations)`. The turn
    /// passes to the opponent exactly when no continuation remains.
    pub fn update_with_move(&mut self, m: &Move) -> (r: (Option<Position>, bool, Vec<Move>))
        requires
            old(self)@.wf(),
            spec_move_applicable(old(self)@, *m),
        ensures
            final(self)@ == spec_next(old(self)@, *m),
            final(self)@.wf(),
            r.0 == spec_captured_pos(*m),
            r.1 == spec_promoted(old(self)@, *m),
            r.2@ == spec_continuations(old(self)@, *m),
    {
        let ghost s0 = self@;
        proof {
            lemma_index_injective(
                s0.dim,
                m.from.row as int,
                m.from.col as int,
                m.to.row as int,
                m.to.col as int,
            );
        }
        // Relocate the piece.
        let from_idx = self.index_of(m.from.row, m.from.col);
        let to_idx = self.index_of(m.to.row, m.to.col);
        let piece = self.board[from_idx];
        self.board.set(to_idx, piece);
        self.board.set(from_idx, None);

        // Remove the captured piece of a jump.
        let mut capture_pos: Option<Position> = None;
        if let Some(middle) = m.middle_pos() {
            proof {
                lemma_index_injective(
                    s0.dim,
                    spec_middle(*m).row as int,
                    spec_middle(*m).col as int,
                    m.from.row as int,
                    m.from.col as int,
                );
                lemma_index_injective(
                    s0.dim,
                    spec_middle(*m).row as int,
                    spec_middle(*m).col as int,
                    m.to.row as int,
                    m.to.col as int,
                );
            }
            let mid_idx = self.index_of(middle.row, middle.col);
            self.board.set(mid_idx, None);
            capture_pos = Some(middle);
        }

        // Promote a Man that reached the back rank (the piece already moved).
        let mut promoted = false;
        if self.final_row(m.to.row) {
            let landed = self.board[to_idx];
            if let Some(p) = landed {
                if p.typ == PieceType::Man {
                    self.board.set(
                        to_idx,
                        Some(CheckersPiece { col: self.turn, typ: PieceType::King }),
                    );
                    promoted = true;
                }
            }
        }
        proof {
            assert(self@ =~= spec_board_after(s0, *m));
        }

        // A capture without promotion must be continued if further jumps of
        // the same piece exist; otherwise the turn passes to the opponent.
        let mut next_capture_moves: Vec<Move> = Vec::new();
        if capture_pos.is_some() && !promoted {
            let mut jumps = self.valid_jumps(&m.to, self.turn);
            next_capture_moves.append(&mut jumps);
            proof {
                assert(next_capture_moves@ =~= spec_continuations(s0, *m));
            }
        }
        if next_capture_moves.len() == 0 {
            self.turn = match self.turn {
                PieceColor::Red => PieceColor::Black,
                PieceColor::Black => PieceColor::Red,
            };
        }
        proof {
            assert(self@ =~= spec_next(s0, *m));
        }
        (capture_pos, promoted, next_capture_moves)
    }

    /// Every jump available to the side to move, over the whole board in
    /// row-major order. A non-empty result signals the mandatory-capture
    /// rule is active.
    pub fn possible_captures(&self) -> (r: Vec<Move>)
        requires
            self@.wf(),
        ensures
            r@ == spec_possible_captures(self@),
    {
        let mut out: Vec<Move> = Vec::new();
        let mut row: usize = 0;
        while row < self.dim
            invariant
                self@.wf(),
                row <= self.dim,
                out@ == captures_rows_upto(self@, row as int),
            decreases self.dim - row,
        {
            let mut col: usize = 0;
            while col < self.dim
                invariant
                    self@.wf(),
                    row < self.dim,
                    col <= self.dim,
                    out@ == captures_rows_upto(self@, row as int) + captures_in_row_upto(
                        self@,
                        row as int,
                        col as int,
                    ),
                decreases self.dim - col,
            {
                let mut jumps = self.valid_jumps(&Position { row, col }, self.turn);
                out.append(&mut jumps);
                col = col + 1;
            }
            row = row + 1;
        }
        out
    }

    /// Whether `player` has any legal move: some square holds one of its
    /// pieces with a valid step or jump.
    #[verifier::rlimit(50)]
    fn possible_to_move(&self, player: PieceColor) -> (r: bool)
        requires
            self@.wf(),
        ensures
            r == spec_possible_to_move(self@, player),
    {
        let mut row: usize = 0;
        while row < self.dim
            invariant
                self@.wf(),
                row <= self.dim,
                forall|pos: Position|
                    self@.pos_in_bounds(pos) && pos.row < row ==> #[trigger] spec_valid_jumps(
                        self@,
                        pos,
                        player,
                    ).len() == 0 && spec_valid_steps(self@, pos, player).len() == 0,
            decreases self.dim - row,
        {
            let mut col: usize = 0;
            while col < self.dim
                invariant
                    self@.wf(),
                    row < self.dim,
                    col <= self.dim,
                    forall|pos: Position|
                        self@.pos_in_bounds(pos) && (pos.row < row || (pos.row == row && pos.col
                            < col)) ==> #[trigger] spec_valid_jumps(self@, pos, player).len()
                            == 0 && spec_valid_steps(self@, pos, player).len() == 0,
                decreases self.dim - col,
            {
                let pos = Position { row, col };
                let jumps = self.valid_jumps(&pos, player);
                let steps = self.valid_steps(&pos, player);
                if jumps.len() > 0 || steps.len() > 0 {
                    return true;
                }
                proof {
                    assert(spec_valid_jumps(self@, pos, player).len() == 0);
                    assert(spec_valid_steps(self@, pos, player).len() == 0);
                    assert forall|pos2: Position|
                        self@.pos_in_bounds(pos2) && (pos2.row < row || (pos2.row == row
                            && pos2.col < col + 1)) implies #[trigger] spec_valid_jumps(
                        self@,
                        pos2,
                        player,
                    ).len() == 0 && spec_valid_steps(self@, pos2, player).len() == 0 by {
                        if pos2.row == row && pos2.col == col {
                            assert(pos2 == pos);
                            assert(spec_valid_jumps(self@, pos, player).len() == 0);
                            assert(spec_valid_steps(self@, pos, player).len() == 0);
                            assert(spec_valid_jumps(self@, pos2, player).len() == 0);
                            assert(spec_valid_steps(self@, pos2, player).len() == 0);
                        } else {
                            assert(pos2.row < row || (pos2.row == row && pos2.col < col));
                            assert(spec_valid_jumps(self@, pos2, player).len() == 0);
                            assert(spec_valid_steps(self@, pos2, player).len() == 0);
                        }
                    }
                }
                col = col + 1;
            }
            row = row + 1;
        }
        proof {
            assert forall|pos: Position| self@.pos_in_bounds(pos) implies #[trigger]
                spec_valid_jumps(self@, pos, player).len() == 0 && spec_valid_steps(
                self@,
                pos,
                player,
            ).len() == 0 by {
                assert(pos.row < row);
            }
            assert(!spec_possible_to_move(self@, player));
        }
        false
    }

    /// A player loses when it owns no pieces, or owns pieces but has no
    /// legal move.
    pub fn is_loser(&self, player: PieceColor) -> (r: bool)
        requires
            self@.wf(),
        ensures
            r == spec_is_loser(self@, player),
    {
        let mut player_pieces: usize = 0;
        let mut i: usize = 0;
        while i < self.board.len()
            invariant
                self@.wf(),
                i <= self.board@.len(),
                player_pieces == count_upto(self.board@, player, i as int),
                player_pieces <= i,
            decreases self.board@.len() - i,
        {
            if let Some(p) = self.board[i] {
                if p.col == player {
                    player_pieces = player_pieces + 1;
                }
            }
            i = i + 1;
        }
        if player_pieces == 0 {
            return true;
        }
        !self.possible_to_move(player)
    }

    /// The winner, if either side has lost.
    pub fn get_winner(&self) -> (r: Option<PieceColor>)
        requires
            self@.wf(),
        ensures
            r == spec_winner(self@),
    {
        if self.is_loser(PieceColor::Black) {
            return Some(PieceColor::Red);
        }
        if self.is_loser(PieceColor::Red) {
            return Some(PieceColor::Black);
        }
        None
    }

    /// The game is over when a winner is defined.
    pub fn is_game_over(&self) -> (r: bool)
        requires
            self@.wf(),
        ensures
            r == spec_game_over(self@),
    {
        self.get_winner().is_some()
    }

    /// Whether a square lies in the board's interior, at least two squares
    /// from every edge.
    pub fn is_in_middle(&self, pos: Position) -> (r: bool)
        requires
            self@.wf(),
        ensures
            r == spec_in_middle(self@, pos),
    {
        pos.row >= 2 && pos.row < self.dim - 2 && pos.col >= 2 && pos.col < self.dim - 2
    }

    /// An exact copy: the search explores branches on independent copies, so
    /// no two branches ever share a board.
    pub fn clone_state(&self) -> (r: Self)
        ensures
            r@ == self@,
    {
        let mut board: Vec<Option<CheckersPiece>> = Vec::new();
        let mut i: usize = 0;
        while i < self.board.len()
            invariant
                i <= self.board@.len(),
                board@ == self.board@.subrange(0, i as int),
            decreases self.board@.len() - i,
        {
            board.push(self.board[i]);
            proof {
                assert(board@ =~= self.board@.subrange(0, i + 1));
            }
            i = i + 1;
        }
        proof {
            assert(board@ =~= self.board@);
        }
        CheckersState { turn: self.turn, dim: self.dim, board }
    }
}

} // verus!
