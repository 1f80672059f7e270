//! The authoritative legal-move enumerator. A turn is a compound move:
//! either one plain step, or a maximal chain of jumps by the same piece.
//! Captures are mandatory: whenever any jump exists, only jump chains are
//! offered, and a chain never stops while a further jump of the landed piece
//! remains (unless a promotion cut it short).

use vstd::prelude::*;
use crate::board::{opposite, spec_is_jump, spec_is_step, spec_middle, Move, PieceColor, Position};
use crate::state::{
    captures_in_row_upto, captures_rows_upto, count_color, dir_jump, dir_step, is_piece_of,
    jump_ok, lemma_count_update, lemma_count_zero_no_piece, lemma_index_injective, mk_move,
    spec_board_after, spec_continuations, spec_game_over, spec_is_loser, spec_move_applicable,
    spec_next, spec_possible_captures, spec_possible_to_move, spec_promoted, spec_valid_jumps,
    spec_valid_steps, sq_index, step_ok, CheckersState, StateModel,
};

verus! {

/// A jump that the engine may be asked to apply.
pub open spec fn capture_applicable(s: StateModel, m: Move) -> bool {
    spec_move_applicable(s, m) && spec_is_jump(m)
}

/// Each valid jump of one direction is an applicable jump from `pos`.
proof fn lemma_dir_jump_members(s: StateModel, pos: Position, dr: int, dc: int)
    requires
        s.wf(),
        s.pos_in_bounds(pos),
        dr == -1 || dr == 1,
        dc == -1 || dc == 1,
        is_piece_of(s.at_pos(pos), s.turn),
    ensures
        forall|i: int|
            0 <= i < dir_jump(s, pos, dr, dc, s.turn).len() ==> capture_applicable(
                s,
                #[trigger] dir_jump(s, pos, dr, dc, s.turn)[i],
            ) && dir_jump(s, pos, dr, dc, s.turn)[i].from == pos,
{
    if jump_ok(s, pos, dr, dc, s.turn) {
        let m = mk_move(pos, pos.row + 2 * dr, pos.col + 2 * dc);
        assert(m.to.row == pos.row + 2 * dr && m.to.col == pos.col + 2 * dc);
        assert(spec_is_jump(m));
        assert(spec_middle(m).row == pos.row + dr);
        assert(spec_middle(m).col == pos.col + dc);
        assert(spec_move_applicable(s, m));
    }
}

/// Every member of `spec_valid_jumps(s, pos, s.turn)` is an applicable jump
/// departing from `pos`.
pub proof fn lemma_valid_jumps_members(s: StateModel, pos: Position)
    requires
        s.wf(),
        s.pos_in_bounds(pos),
    ensures
        forall|i: int|
            0 <= i < spec_valid_jumps(s, pos, s.turn).len() ==> capture_applicable(
                s,
                #[trigger] spec_valid_jumps(s, pos, s.turn)[i],
            ) && spec_valid_jumps(s, pos, s.turn)[i].from == pos,
{
    let t = s.turn;
    let js = spec_valid_jumps(s, pos, t);
    if js.len() > 0 {
        assert(is_piece_of(s.at_pos(pos), t));
        lemma_dir_jump_members(s, pos, -1, -1);
        lemma_dir_jump_members(s, pos, -1, 1);
        lemma_dir_jump_members(s, pos, 1, -1);
        lemma_dir_jump_members(s, pos, 1, 1);
    }
}

/// Each valid step of one direction is an applicable non-jump from `pos`.
proof fn lemma_dir_step_members(s: StateModel, pos: Position, dr: int, dc: int)
    requires
        s.wf(),
        s.pos_in_bounds(pos),
        dr == -1 || dr == 1,
        dc == -1 || dc == 1,
        is_piece_of(s.at_pos(pos), s.turn),
    ensures
        forall|i: int|
            0 <= i < dir_step(s, pos, dr, dc).len() ==> spec_move_applicable(
                s,
                #[trigger] dir_step(s, pos, dr, dc)[i],
            ) && !spec_is_jump(dir_step(s, pos, dr, dc)[i]) && dir_step(s, pos, dr, dc)[i].from
                == pos,
{
    if step_ok(s, pos, dr, dc) {
        let m = mk_move(pos, pos.row + dr, pos.col + dc);
        assert(m.to.row == pos.row + dr && m.to.col == pos.col + dc);
        assert(spec_is_step(m) && !spec_is_jump(m));
        assert(spec_move_applicable(s, m));
    }
}

/// Every member of `spec_valid_steps(s, pos, s.turn)` is an applicable step
/// departing from `pos`.
pub proof fn lemma_valid_steps_members(s: StateModel, pos: Position)
    requires
        s.wf(),
        s.pos_in_bounds(pos),
    ensures
        forall|i: int|
            0 <= i < spec_valid_steps(s, pos, s.turn).len() ==> spec_move_applicable(
                s,
                #[trigger] spec_valid_steps(s, pos, s.turn)[i],
            ) && !spec_is_jump(spec_valid_steps(s, pos, s.turn)[i]) && spec_valid_steps(
                s,
                pos,
                s.turn,
            )[i].from == pos,
{
    let t = s.turn;
    let ss = spec_valid_steps(s, pos, t);
    if ss.len() > 0 {
        assert(is_piece_of(s.at_pos(pos), t));
        lemma_dir_step_members(s, pos, -1, -1);
        lemma_dir_step_members(s, pos, -1, 1);
        lemma_dir_step_members(s, pos, 1, -1);
        lemma_dir_step_members(s, pos, 1, 1);
    }
}

/// Applying a move keeps the board square and the dimension; a jump removes
/// exactly one opposing piece and no piece of the mover.
pub proof fn lemma_next_preserves(s: StateModel, m: Move)
    requires
        s.wf(),
        spec_move_applicable(s, m),
    ensures
        spec_next(s, m).wf(),
        spec_next(s, m).dim == s.dim,
        spec_board_after(s, m).wf(),
        spec_is_jump(m) ==> count_color(spec_next(s, m).board, opposite(s.turn)) + 1
            == count_color(s.board, opposite(s.turn)),
        !spec_is_jump(m) ==> count_color(spec_next(s, m).board, opposite(s.turn))
            == count_color(s.board, opposite(s.turn)),
{
    let dim = s.dim;
    let opp = opposite(s.turn);
    let n = s.board.len() as int;
    let fi = sq_index(s, m.from);
    let ti = sq_index(s, m.to);
    lemma_index_injective(dim, m.from.row as int, m.from.col as int, m.to.row as int,
        m.to.col as int);
    assert(0 <= m.from.row * dim + m.from.col < n && 0 <= m.to.row * dim + m.to.col < n)
        by (nonlinear_arith)
        requires
            0 <= m.from.row < dim,
            0 <= m.from.col < dim,
            0 <= m.to.row < dim,
            0 <= m.to.col < dim,
            n == dim * dim,
    ;
    assert(0 <= fi < n && 0 <= ti < n);
    let b1 = s.board.update(ti, s.at_pos(m.from));
    let b2 = b1.update(fi, None);
    lemma_count_update(s.board, opp, ti, s.at_pos(m.from), n);
    lemma_count_update(b1, opp, fi, None, n);
    if spec_is_jump(m) {
        let mid = spec_middle(m);
        let mi = sq_index(s, mid);
        lemma_index_injective(dim, mid.row as int, mid.col as int, m.from.row as int,
            m.from.col as int);
        lemma_index_injective(dim, mid.row as int, mid.col as int, m.to.row as int,
            m.to.col as int);
        assert(0 <= mid.row * dim + mid.col < n) by (nonlinear_arith)
            requires
                0 <= mid.row < dim,
                0 <= mid.col < dim,
                n == dim * dim,
        ;
        assert(0 <= mi < n);
        let b3 = b2.update(mi, None);
        lemma_count_update(b2, opp, mi, None, n);
        if spec_promoted(s, m) {
            lemma_count_update(b3, opp, ti,
                Some(crate::board::CheckersPiece { col: s.turn, typ: crate::board::PieceType::King }),
                n);
        }
    } else {
        if spec_promoted(s, m) {
            lemma_count_update(b2, opp, ti,
                Some(crate::board::CheckersPiece { col: s.turn, typ: crate::board::PieceType::King }),
                n);
        }
    }
}

/// Prefixing every chain of a family with the jump that opened it.
pub open spec fn prepend_all(m: Move, chains: Seq<Seq<Move>>) -> Seq<Seq<Move>> {
    chains.map_values(|c: Seq<Move>| seq![m] + c)
}

/// Every maximal capture chain that begins with the jump `m` from state `s`:
/// apply `m`; if no mandatory continuation remains the chain is just `m`,
/// otherwise it is `m` followed by a maximal chain of some continuation.
pub open spec fn spec_chains_from(s: StateModel, m: Move) -> Seq<Seq<Move>>
    decreases count_color(s.board, opposite(s.turn)), 0int, 0int,
        when s.wf() && capture_applicable(s, m)
        via spec_chains_from_dec
{
    let conts = spec_continuations(s, m);
    if conts.len() == 0 {
        seq![seq![m]]
    } else {
        prepend_all(m, chains_upto(spec_next(s, m), conts, conts.len() as int))
    }
}

/// The chains of the first `n` opening jumps of `ms`, concatenated in order.
pub open spec fn chains_upto(s: StateModel, ms: Seq<Move>, n: int) -> Seq<Seq<Move>>
    decreases count_color(s.board, opposite(s.turn)), 1int, n,
        when s.wf() && n <= ms.len() && (forall|i: int|
            0 <= i < ms.len() ==> capture_applicable(s, #[trigger] ms[i]))
        via chains_upto_dec
{
    if n <= 0 {
        Seq::empty()
    } else {
        chains_upto(s, ms, n - 1) + spec_chains_from(s, ms[n - 1])
    }
}

#[via_fn]
proof fn spec_chains_from_dec(s: StateModel, m: Move) {
    let conts = spec_continuations(s, m);
    if conts.len() != 0 {
        let s2 = spec_next(s, m);
        lemma_next_preserves(s, m);
        assert(s2 == spec_board_after(s, m));
        lemma_valid_jumps_members(s2, m.to);
        assert(conts == spec_valid_jumps(s2, m.to, s2.turn));
    }
}

#[via_fn]
proof fn chains_upto_dec(s: StateModel, ms: Seq<Move>, n: int) {
}

/// The state after applying the first `n` moves of a compound move in order.
pub open spec fn spec_apply_chain(s: StateModel, c: Seq<Move>, n: int) -> StateModel
    decreases n,
{
    if n <= 0 {
        s
    } else {
        spec_next(spec_apply_chain(s, c, n - 1), c[n - 1])
    }
}

/// The state after applying a whole compound move.
pub open spec fn spec_next_compound(s: StateModel, c: Seq<Move>) -> StateModel {
    spec_apply_chain(s, c, c.len() as int)
}

/// Each move of the compound is applicable in the state reached by the moves
/// before it.
pub open spec fn chain_applicable(s: StateModel, c: Seq<Move>) -> bool {
    forall|i: int|
        0 <= i < c.len() ==> spec_move_applicable(#[trigger] spec_apply_chain(s, c, i), c[i])
}

/// A compound move is maximal: after its last move, the landed piece has no
/// further valid jump for the mover, unless that last move promoted it.
pub open spec fn chain_maximal(s: StateModel, c: Seq<Move>) -> bool
    decreases c.len(),
{
    if c.len() == 0 {
        true
    } else if c.len() == 1 {
        spec_promoted(s, c[0]) || spec_valid_jumps(spec_next(s, c[0]), c[0].to, s.turn).len()
            == 0
    } else {
        chain_maximal(spec_next(s, c[0]), c.skip(1))
    }
}

/// Valid jumps depend only on the board and the dimension, not on whose
/// turn the state records.
pub proof fn lemma_valid_jumps_board_only(s1: StateModel, s2: StateModel, pos: Position,
    t: PieceColor)
    requires
        s1.board == s2.board,
        s1.dim == s2.dim,
    ensures
        spec_valid_jumps(s1, pos, t) == spec_valid_jumps(s2, pos, t),
{
    assert(spec_valid_jumps(s1, pos, t) =~= spec_valid_jumps(s2, pos, t));
}

/// Applying the head of a compound first and then the tail visits the same
/// states as applying the whole compound.
pub proof fn lemma_apply_chain_cons(s: StateModel, m: Move, tail: Seq<Move>, i: int)
    requires
        0 <= i <= tail.len(),
    ensures
        spec_apply_chain(s, seq![m] + tail, i + 1) == spec_apply_chain(
            spec_next(s, m),
            tail,
            i,
        ),
    decreases i,
{
    let c = seq![m] + tail;
    if i == 0 {
        assert(spec_apply_chain(s, c, 1) == spec_next(spec_apply_chain(s, c, 0), c[0]));
    } else {
        lemma_apply_chain_cons(s, m, tail, i - 1);
        assert(c[i] == tail[i - 1]);
    }
}

/// Applying an applicable compound preserves well-formedness and the
/// dimension.
pub proof fn lemma_apply_chain_wf(s: StateModel, c: Seq<Move>, n: int)
    requires
        s.wf(),
        chain_applicable(s, c),
        0 <= n <= c.len(),
    ensures
        spec_apply_chain(s, c, n).wf(),
        spec_apply_chain(s, c, n).dim == s.dim,
    decreases n,
{
    if n > 0 {
        lemma_apply_chain_wf(s, c, n - 1);
        lemma_next_preserves(spec_apply_chain(s, c, n - 1), c[n - 1]);
    }
}

/// Every chain that `spec_chains_from` enumerates is non-empty, opens with
/// its root jump, is applicable move by move, and is maximal.
pub proof fn lemma_chains_from_props(s: StateModel, m: Move)
    requires
        s.wf(),
        capture_applicable(s, m),
    ensures
        spec_chains_from(s, m).len() >= 1,
        forall|i: int|
            0 <= i < spec_chains_from(s, m).len() ==> (#[trigger] spec_chains_from(s, m)[i]).len()
                >= 1 && spec_chains_from(s, m)[i][0] == m && chain_applicable(
                s,
                spec_chains_from(s, m)[i],
            ) && chain_maximal(s, spec_chains_from(s, m)[i]),
    decreases count_color(s.board, opposite(s.turn)), 0int, 0int,
{
    let conts = spec_continuations(s, m);
    let s2 = spec_next(s, m);
    lemma_next_preserves(s, m);
    if conts.len() == 0 {
        let c = seq![m];
        assert(spec_chains_from(s, m) =~= seq![c]);
        assert(spec_apply_chain(s, c, 0) == s);
        assert(chain_applicable(s, c));
        if !spec_promoted(s, m) {
            lemma_valid_jumps_board_only(s2, spec_board_after(s, m), m.to, s.turn);
            assert(spec_valid_jumps(s2, m.to, s.turn).len() == 0);
        }
        assert(chain_maximal(s, c));
    } else {
        assert(s2 =~= spec_board_after(s, m));
        lemma_valid_jumps_members(s2, m.to);
        lemma_chains_upto_props(s2, conts, conts.len() as int);
        let cs = chains_upto(s2, conts, conts.len() as int);
        assert(spec_chains_from(s, m) == prepend_all(m, cs));
        assert forall|i: int| 0 <= i < spec_chains_from(s, m).len() implies
            (#[trigger] spec_chains_from(s, m)[i]).len() >= 1 && spec_chains_from(s, m)[i][0]
                == m && chain_applicable(s, spec_chains_from(s, m)[i]) && chain_maximal(
                s,
                spec_chains_from(s, m)[i],
            ) by {
            let tail = cs[i];
            let c = seq![m] + tail;
            assert(spec_chains_from(s, m)[i] == c);
            assert(tail.len() >= 1 && chain_applicable(s2, tail) && chain_maximal(s2, tail));
            // applicable move by move
            assert forall|k: int| 0 <= k < c.len() implies spec_move_applicable(
                #[trigger] spec_apply_chain(s, c, k),
                c[k],
            ) by {
                if k == 0 {
                    assert(spec_apply_chain(s, c, 0) == s);
                } else {
                    lemma_apply_chain_cons(s, m, tail, k - 1);
                    assert(spec_apply_chain(s, c, k) == spec_apply_chain(s2, tail, k - 1));
                    assert(c[k] == tail[k - 1]);
                    assert(spec_move_applicable(spec_apply_chain(s2, tail, k - 1), tail[k - 1]));
                }
            }
            // maximal
            assert(c.len() >= 2);
            assert(c.skip(1) =~= tail);
            assert(spec_next(s, c[0]) == s2);
            assert(chain_maximal(s, c));
        }
    }
}

/// The chains of a list of applicable opening jumps: at least one chain per
/// opening jump, each non-empty, opening with one of the listed jumps,
/// applicable, and maximal.
pub proof fn lemma_chains_upto_props(s: StateModel, ms: Seq<Move>, n: int)
    requires
        s.wf(),
        0 <= n <= ms.len(),
        forall|i: int| 0 <= i < ms.len() ==> capture_applicable(s, #[trigger] ms[i]),
    ensures
        n >= 1 ==> chains_upto(s, ms, n).len() >= 1,
        forall|i: int|
            0 <= i < chains_upto(s, ms, n).len() ==> (#[trigger] chains_upto(s, ms, n)[i]).len()
                >= 1 && (exists|k: int| 0 <= k < n && chains_upto(s, ms, n)[i][0] == ms[k])
                && chain_applicable(s, chains_upto(s, ms, n)[i]) && chain_maximal(
                s,
                chains_upto(s, ms, n)[i],
            ),
    decreases count_color(s.board, opposite(s.turn)), 1int, n,
{
    if n > 0 {
        lemma_chains_upto_props(s, ms, n - 1);
        lemma_chains_from_props(s, ms[n - 1]);
        let prev = chains_upto(s, ms, n - 1);
        let sub = spec_chains_from(s, ms[n - 1]);
        assert forall|i: int| 0 <= i < chains_upto(s, ms, n).len() implies
            (#[trigger] chains_upto(s, ms, n)[i]).len() >= 1 && (exists|k: int|
                0 <= k < n && chains_upto(s, ms, n)[i][0] == ms[k]) && chain_applicable(
                s,
                chains_upto(s, ms, n)[i],
            ) && chain_maximal(s, chains_upto(s, ms, n)[i]) by {
            if i < prev.len() {
                assert(chains_upto(s, ms, n)[i] == prev[i]);
                let k0 = choose|k: int| 0 <= k < n - 1 && prev[i][0] == ms[k];
                assert(0 <= k0 < n && chains_upto(s, ms, n)[i][0] == ms[k0]);
            } else {
                assert(chains_upto(s, ms, n)[i] == sub[i - prev.len()]);
                assert(chains_upto(s, ms, n)[i][0] == ms[n - 1]);
            }
        }
    }
}

/// Every jump the side to move has from the first `ncols` squares of row
/// `row` is an applicable capture.
proof fn lemma_captures_row_members(s: StateModel, row: int, ncols: int)
    requires
        s.wf(),
        0 <= row < s.dim,
        0 <= ncols <= s.dim,
    ensures
        forall|i: int|
            0 <= i < captures_in_row_upto(s, row, ncols).len() ==> capture_applicable(
                s,
                #[trigger] captures_in_row_upto(s, row, ncols)[i],
            ),
    decreases ncols,
{
    if ncols > 0 {
        lemma_captures_row_members(s, row, ncols - 1);
        lemma_valid_jumps_members(
            s,
            Position { row: row as usize, col: (ncols - 1) as usize },
        );
        let prev = captures_in_row_upto(s, row, ncols - 1);
        let js = spec_valid_jumps(
            s,
            Position { row: row as usize, col: (ncols - 1) as usize },
            s.turn,
        );
        assert forall|i: int| 0 <= i < captures_in_row_upto(s, row, ncols).len()
            implies capture_applicable(s, #[trigger] captures_in_row_upto(s, row, ncols)[i]) by {
            if i < prev.len() {
                assert(captures_in_row_upto(s, row, ncols)[i] == prev[i]);
            } else {
                assert(captures_in_row_upto(s, row, ncols)[i] == js[i - prev.len()]);
            }
        }
    }
}

/// Every jump the side to move has from the first `nrows` rows is an
/// applicable capture.
proof fn lemma_captures_rows_members(s: StateModel, nrows: int)
    requires
        s.wf(),
        0 <= nrows <= s.dim,
    ensures
        forall|i: int|
            0 <= i < captures_rows_upto(s, nrows).len() ==> capture_applicable(
                s,
                #[trigger] captures_rows_upto(s, nrows)[i],
            ),
    decreases nrows,
{
    if nrows > 0 {
        lemma_captures_rows_members(s, nrows - 1);
        lemma_captures_row_members(s, nrows - 1, s.dim);
        let prev = captures_rows_upto(s, nrows - 1);
        let rowjs = captures_in_row_upto(s, nrows - 1, s.dim);
        assert forall|i: int| 0 <= i < captures_rows_upto(s, nrows).len()
            implies capture_applicable(s, #[trigger] captures_rows_upto(s, nrows)[i]) by {
            if i < prev.len() {
                assert(captures_rows_upto(s, nrows)[i] == prev[i]);
            } else {
                assert(captures_rows_upto(s, nrows)[i] == rowjs[i - prev.len()]);
            }
        }
    }
}

/// Every possible capture of the side to move is an applicable jump.
pub proof fn lemma_possible_captures_members(s: StateModel)
    requires
        s.wf(),
    ensures
        forall|i: int|
            0 <= i < spec_possible_captures(s).len() ==> capture_applicable(
                s,
                #[trigger] spec_possible_captures(s)[i],
            ),
{
    lemma_captures_rows_members(s, s.dim);
}

/// The steps available to the side to move from the first `ncols` squares of
/// row `row`, in column order.
pub open spec fn steps_in_row_upto(s: StateModel, row: int, ncols: int) -> Seq<Move>
    decreases ncols,
{
    if ncols <= 0 {
        Seq::empty()
    } else {
        steps_in_row_upto(s, row, ncols - 1) + spec_valid_steps(
            s,
            Position { row: row as usize, col: (ncols - 1) as usize },
            s.turn,
        )
    }
}

/// The steps available to the side to move from the first `nrows` rows, in
/// row-major order.
pub open spec fn steps_rows_upto(s: StateModel, nrows: int) -> Seq<Move>
    decreases nrows,
{
    if nrows <= 0 {
        Seq::empty()
    } else {
        steps_rows_upto(s, nrows - 1) + steps_in_row_upto(s, nrows - 1, s.dim)
    }
}

/// Every step available to the side to move, over the whole board in
/// row-major order.
pub open spec fn spec_all_steps(s: StateModel) -> Seq<Move> {
    steps_rows_upto(s, s.dim)
}

/// All maximal capture chains of the side to move: for each possible capture
/// in board order, every maximal chain opening with it.
pub open spec fn spec_capture_chains(s: StateModel) -> Seq<Seq<Move>> {
    chains_upto(s, spec_possible_captures(s), spec_possible_captures(s).len() as int)
}

/// The authoritative legal-move enumerator: every maximal capture chain if
/// any capture exists (captures are mandatory), otherwise every single step
/// as a one-move compound.
pub open spec fn spec_get_possible_moves(s: StateModel) -> Seq<Seq<Move>> {
    if spec_capture_chains(s).len() > 0 {
        spec_capture_chains(s)
    } else {
        spec_all_steps(s).map_values(|m: Move| seq![m])
    }
}

/// Every step the side to move has from the first `ncols` squares of row
/// `row` is an applicable non-jump.
proof fn lemma_steps_row_members(s: StateModel, row: int, ncols: int)
    requires
        s.wf(),
        0 <= row < s.dim,
        0 <= ncols <= s.dim,
    ensures
        forall|i: int|
            0 <= i < steps_in_row_upto(s, row, ncols).len() ==> spec_move_applicable(
                s,
                #[trigger] steps_in_row_upto(s, row, ncols)[i],
            ),
    decreases ncols,
{
    if ncols > 0 {
        lemma_steps_row_members(s, row, ncols - 1);
        lemma_valid_steps_members(
            s,
            Position { row: row as usize, col: (ncols - 1) as usize },
        );
        let prev = steps_in_row_upto(s, row, ncols - 1);
        let ss = spec_valid_steps(
            s,
            Position { row: row as usize, col: (ncols - 1) as usize },
            s.turn,
        );
        assert forall|i: int| 0 <= i < steps_in_row_upto(s, row, ncols).len()
            implies spec_move_applicable(s, #[trigger] steps_in_row_upto(s, row, ncols)[i]) by {
            if i < prev.len() {
                assert(steps_in_row_upto(s, row, ncols)[i] == prev[i]);
            } else {
                assert(steps_in_row_upto(s, row, ncols)[i] == ss[i - prev.len()]);
            }
        }
    }
}

/// Every step the side to move has from the first `nrows` rows is an
/// applicable non-jump.
proof fn lemma_steps_rows_members(s: StateModel, nrows: int)
    requires
        s.wf(),
        0 <= nrows <= s.dim,
    ensures
        forall|i: int|
            0 <= i < steps_rows_upto(s, nrows).len() ==> spec_move_applicable(
                s,
                #[trigger] steps_rows_upto(s, nrows)[i],
            ),
    decreases nrows,
{
    if nrows > 0 {
        lemma_steps_rows_members(s, nrows - 1);
        lemma_steps_row_members(s, nrows - 1, s.dim);
        let prev = steps_rows_upto(s, nrows - 1);
        let rowss = steps_in_row_upto(s, nrows - 1, s.dim);
        assert forall|i: int| 0 <= i < steps_rows_upto(s, nrows).len()
            implies spec_move_applicable(s, #[trigger] steps_rows_upto(s, nrows)[i]) by {
            if i < prev.len() {
                assert(steps_rows_upto(s, nrows)[i] == prev[i]);
            } else {
                assert(steps_rows_upto(s, nrows)[i] == rowss[i - prev.len()]);
            }
        }
    }
}

/// A row prefix yields no captures exactly when each of its squares yields
/// none.
proof fn lemma_captures_row_empty(s: StateModel, row: int, ncols: int)
    requires
        s.wf(),
        0 <= row < s.dim,
        0 <= ncols <= s.dim,
    ensures
        (captures_in_row_upto(s, row, ncols).len() == 0) <==> (forall|c0: int|
            0 <= c0 < ncols ==> (#[trigger] spec_valid_jumps(
                s,
                Position { row: row as usize, col: c0 as usize },
                s.turn,
            )).len() == 0),
    decreases ncols,
{
    if ncols > 0 {
        lemma_captures_row_empty(s, row, ncols - 1);
    }
}

/// The whole board yields no captures exactly when no square yields one.
proof fn lemma_captures_rows_empty(s: StateModel, nrows: int)
    requires
        s.wf(),
        0 <= nrows <= s.dim,
    ensures
        (captures_rows_upto(s, nrows).len() == 0) <==> (forall|r0: int, c0: int|
            0 <= r0 < nrows && 0 <= c0 < s.dim ==> (#[trigger] spec_valid_jumps(
                s,
                Position { row: r0 as usize, col: c0 as usize },
                s.turn,
            )).len() == 0),
    decreases nrows,
{
    if nrows > 0 {
        lemma_captures_rows_empty(s, nrows - 1);
        lemma_captures_row_empty(s, nrows - 1, s.dim);
    }
}

/// A row prefix yields no steps exactly when each of its squares yields
/// none.
proof fn lemma_steps_row_empty(s: StateModel, row: int, ncols: int)
    requires
        s.wf(),
        0 <= row < s.dim,
        0 <= ncols <= s.dim,
    ensures
        (steps_in_row_upto(s, row, ncols).len() == 0) <==> (forall|c0: int|
            0 <= c0 < ncols ==> (#[trigger] spec_valid_steps(
                s,
                Position { row: row as usize, col: c0 as usize },
                s.turn,
            )).len() == 0),
    decreases ncols,
{
    if ncols > 0 {
        lemma_steps_row_empty(s, row, ncols - 1);
    }
}

/// The whole board yields no steps exactly when no square yields one.
proof fn lemma_steps_rows_empty(s: StateModel, nrows: int)
    requires
        s.wf(),
        0 <= nrows <= s.dim,
    ensures
        (steps_rows_upto(s, nrows).len() == 0) <==> (forall|r0: int, c0: int|
            0 <= r0 < nrows && 0 <= c0 < s.dim ==> (#[trigger] spec_valid_steps(
                s,
                Position { row: r0 as usize, col: c0 as usize },
                s.turn,
            )).len() == 0),
    decreases nrows,
{
    if nrows > 0 {
        lemma_steps_rows_empty(s, nrows - 1);
        lemma_steps_row_empty(s, nrows - 1, s.dim);
    }
}

/// Restates the two scans over arbitrary positions: no captures and no steps
/// anywhere exactly when every in-bounds square yields none.
proof fn lemma_scans_empty_iff(s: StateModel)
    requires
        s.wf(),
    ensures
        (spec_possible_captures(s).len() == 0) <==> (forall|pos: Position|
            s.pos_in_bounds(pos) ==> (#[trigger] spec_valid_jumps(s, pos, s.turn)).len() == 0),
        (spec_all_steps(s).len() == 0) <==> (forall|pos: Position|
            s.pos_in_bounds(pos) ==> (#[trigger] spec_valid_steps(s, pos, s.turn)).len() == 0),
{
    lemma_captures_rows_empty(s, s.dim);
    lemma_steps_rows_empty(s, s.dim);
    if spec_possible_captures(s).len() == 0 {
        assert forall|pos: Position| s.pos_in_bounds(pos) implies #[trigger] spec_valid_jumps(
            s,
            pos,
            s.turn,
        ).len() == 0 by {
            let r0 = pos.row as int;
            let c0 = pos.col as int;
            assert(spec_valid_jumps(
                s,
                Position { row: r0 as usize, col: c0 as usize },
                s.turn,
            ).len() == 0);
            assert(Position { row: r0 as usize, col: c0 as usize } == pos);
        }
    }
    if spec_all_steps(s).len() == 0 {
        assert forall|pos: Position| s.pos_in_bounds(pos) implies #[trigger] spec_valid_steps(
            s,
            pos,
            s.turn,
        ).len() == 0 by {
            let r0 = pos.row as int;
            let c0 = pos.col as int;
            assert(spec_valid_steps(
                s,
                Position { row: r0 as usize, col: c0 as usize },
                s.turn,
            ).len() == 0);
            assert(Position { row: r0 as usize, col: c0 as usize } == pos);
        }
    }
}

/// A side with no piece on the board has no valid jump and no valid step
/// from any square.
proof fn lemma_count_zero_no_moves(s: StateModel)
    requires
        s.wf(),
        count_color(s.board, s.turn) == 0,
    ensures
        forall|pos: Position|
            s.pos_in_bounds(pos) ==> (#[trigger] spec_valid_jumps(s, pos, s.turn)).len() == 0
                && spec_valid_steps(s, pos, s.turn).len() == 0,
{
    lemma_count_zero_no_piece(s.board, s.turn, s.board.len() as int);
    assert forall|pos: Position| s.pos_in_bounds(pos) implies #[trigger] spec_valid_jumps(
        s,
        pos,
        s.turn,
    ).len() == 0 && spec_valid_steps(s, pos, s.turn).len() == 0 by {
        assert(0 <= pos.row * s.dim + pos.col < s.board.len()) by (nonlinear_arith)
            requires
                0 <= pos.row < s.dim,
                0 <= pos.col < s.dim,
                s.board.len() == s.dim * s.dim,
        ;
        assert(!is_piece_of(s.board[pos.row * s.dim + pos.col], s.turn));
        assert(!is_piece_of(s.at_pos(pos), s.turn));
    }
}

/// The enumerator returns no move exactly when the side to move has lost:
/// it owns no piece, or owns pieces but none has a step or a jump.
pub proof fn lemma_moves_empty_iff_loser(s: StateModel)
    requires
        s.wf(),
    ensures
        (spec_get_possible_moves(s).len() == 0) <==> spec_is_loser(s, s.turn),
{
    let caps = spec_possible_captures(s);
    lemma_possible_captures_members(s);
    lemma_scans_empty_iff(s);
    if caps.len() > 0 {
        lemma_chains_upto_props(s, caps, caps.len() as int);
        assert(spec_get_possible_moves(s).len() > 0);
        // Some square yields a jump, so the side can move and owns a piece.
        let pos = choose|pos: Position|
            s.pos_in_bounds(pos) && (#[trigger] spec_valid_jumps(s, pos, s.turn)).len() > 0;
        assert(spec_possible_to_move(s, s.turn));
        if count_color(s.board, s.turn) == 0 {
            lemma_count_zero_no_moves(s);
            assert(false);
        }
        assert(!spec_is_loser(s, s.turn));
    } else {
        assert(spec_capture_chains(s).len() == 0);
        if spec_all_steps(s).len() == 0 {
            assert(spec_get_possible_moves(s).len() == 0);
            assert(!spec_possible_to_move(s, s.turn));
            assert(spec_is_loser(s, s.turn));
        } else {
            assert(spec_get_possible_moves(s).len() > 0);
            let pos = choose|pos: Position|
                s.pos_in_bounds(pos) && (#[trigger] spec_valid_steps(s, pos, s.turn)).len()
                    > 0;
            assert(spec_valid_jumps(s, pos, s.turn).len() >= 0);
            assert(spec_possible_to_move(s, s.turn));
            if count_color(s.board, s.turn) == 0 {
                lemma_count_zero_no_moves(s);
                assert(false);
            }
            assert(!spec_is_loser(s, s.turn));
        }
    }
}

/// A side that cannot move has lost, so the game is over.
pub proof fn lemma_no_moves_game_over(s: StateModel)
    requires
        s.wf(),
    ensures
        spec_get_possible_moves(s).len() == 0 ==> spec_game_over(s),
{
    lemma_moves_empty_iff_loser(s);
}

/// The enumerator is empty exactly when the game is over, provided the
/// opponent of the side to move has not already lost. (When only the
/// opponent has lost — say it kept no pieces — the game is over although the
/// side to move still has moves.)
pub proof fn lemma_moves_empty_iff_game_over(s: StateModel)
    requires
        s.wf(),
        !spec_is_loser(s, opposite(s.turn)),
    ensures
        (spec_get_possible_moves(s).len() == 0) <==> spec_game_over(s),
{
    lemma_moves_empty_iff_loser(s);
}

/// The mandatory-capture rule: when any capture exists, every compound move
/// the enumerator returns opens with one of the possible captures — a jump;
/// no plain step is offered alongside.
pub proof fn lemma_mandatory_capture(s: StateModel)
    requires
        s.wf(),
        spec_possible_captures(s).len() > 0,
    ensures
        forall|i: int|
            0 <= i < spec_get_possible_moves(s).len() ==> (#[trigger] spec_get_possible_moves(
                s,
            )[i]).len() >= 1 && spec_is_jump(spec_get_possible_moves(s)[i][0])
                && spec_possible_captures(s).contains(spec_get_possible_moves(s)[i][0]),
{
    let caps = spec_possible_captures(s);
    lemma_possible_captures_members(s);
    lemma_chains_upto_props(s, caps, caps.len() as int);
    assert forall|i: int| 0 <= i < spec_get_possible_moves(s).len() implies
        (#[trigger] spec_get_possible_moves(s)[i]).len() >= 1 && spec_is_jump(
        spec_get_possible_moves(s)[i][0],
    ) && spec_possible_captures(s).contains(spec_get_possible_moves(s)[i][0]) by {
        let c = spec_get_possible_moves(s)[i];
        let k = choose|k: int| 0 <= k < caps.len() && c[0] == caps[k];
        assert(caps[k] == c[0]);
        assert(capture_applicable(s, caps[k]));
    }
}

/// Every capture chain the enumerator returns is maximal: recomputing the
/// valid jumps from its final landing square yields none, unless the final
/// jump promoted the piece.
pub proof fn lemma_capture_chains_maximal(s: StateModel)
    requires
        s.wf(),
        spec_possible_captures(s).len() > 0,
    ensures
        forall|i: int|
            0 <= i < spec_get_possible_moves(s).len() ==> chain_maximal(
                s,
                #[trigger] spec_get_possible_moves(s)[i],
            ),
{
    let caps = spec_possible_captures(s);
    lemma_possible_captures_members(s);
    lemma_chains_upto_props(s, caps, caps.len() as int);
}

/// Every compound move the enumerator returns is non-empty and applicable
/// move by move from the state it was enumerated in.
pub proof fn lemma_possible_moves_applicable(s: StateModel)
    requires
        s.wf(),
    ensures
        forall|i: int|
            0 <= i < spec_get_possible_moves(s).len() ==> chain_applicable(
                s,
                #[trigger] spec_get_possible_moves(s)[i],
            ) && spec_get_possible_moves(s)[i].len() >= 1,
{
    let caps = spec_possible_captures(s);
    lemma_possible_captures_members(s);
    if caps.len() > 0 {
        lemma_chains_upto_props(s, caps, caps.len() as int);
    } else {
        assert(spec_capture_chains(s).len() == 0);
        lemma_steps_rows_members(s, s.dim);
        let steps = spec_all_steps(s);
        assert forall|i: int| 0 <= i < spec_get_possible_moves(s).len() implies
            chain_applicable(s, #[trigger] spec_get_possible_moves(s)[i])
                && spec_get_possible_moves(s)[i].len() >= 1 by {
            let c = spec_get_possible_moves(s)[i];
            assert(c == seq![steps[i]]);
            assert(spec_move_applicable(s, steps[i]));
            assert forall|k: int| 0 <= k < c.len() implies spec_move_applicable(
                #[trigger] spec_apply_chain(s, c, k),
                c[k],
            ) by {
                assert(spec_apply_chain(s, c, 0) == s);
            }
        }
    }
}

/// A state that is not yet lost for the side to move offers at least one
/// move; in particular a search from a non-terminal root always finds one.
pub proof fn lemma_moves_nonempty(s: StateModel)
    requires
        s.wf(),
        !spec_game_over(s),
    ensures
        spec_get_possible_moves(s).len() > 0,
{
    lemma_moves_empty_iff_loser(s);
    if spec_get_possible_moves(s).len() == 0 {
        assert(spec_is_loser(s, s.turn));
        assert(spec_game_over(s));
    }
}

/// Whether a proposed move is legal now: it must depart from the mandated
/// square if a capture chain is in progress, and be one of the possible
/// captures whenever any capture exists (captures are mandatory), otherwise
/// one of its piece's valid steps.
pub open spec fn spec_is_valid_move(s: StateModel, m: Move, move_from: Option<Position>)
    -> bool {
    &&& (match move_from {
        Some(p) => p == m.from,
        None => true,
    })
    &&& (if spec_possible_captures(s).len() > 0 {
        spec_possible_captures(s).contains(m)
    } else {
        spec_valid_steps(s, m.from, s.turn).contains(m)
    })
}

/// Whether `m` occurs in `v`.
fn contains_move(v: &Vec<Move>, m: &Move) -> (r: bool)
    ensures
        r == v@.contains(*m),
{
    let mut i: usize = 0;
    while i < v.len()
        invariant
            i <= v@.len(),
            forall|j: int| 0 <= j < i ==> v@[j] != *m,
        decreases v@.len() - i,
    {
        if v[i] == *m {
            return true;
        }
        i = i + 1;
    }
    proof {
        assert(!v@.contains(*m));
    }
    false
}

/// Validates a proposed move against the rules, for rejecting illegal input
/// before it reaches move application: same enumeration the engine itself
/// uses, so the mandatory-capture rule cannot drift.
pub fn is_valid_move(m: &Move, checkers_state: &CheckersState, move_from: Option<Position>)
    -> (r: bool)
    requires
        checkers_state@.wf(),
        checkers_state@.pos_in_bounds(m.from),
    ensures
        r == spec_is_valid_move(checkers_state@, *m, move_from),
{
    if let Some(mandated) = move_from {
        if !(mandated == m.from) {
            return false;
        }
    }
    let possible_jumps = checkers_state.possible_captures();
    if possible_jumps.len() > 0 {
        contains_move(&possible_jumps, m)
    } else {
        let steps = checkers_state.valid_steps(&m.from, checkers_state.turn);
        contains_move(&steps, m)
    }
}

impl CheckersState {
    /// All maximal capture chains that begin with the jump `m` from this
    /// state, in a fixed order: continuations in the order `valid_jumps`
    /// reports them, depth first.
    #[verifier::loop_isolation(false)]
    #[verifier::rlimit(50)]
    pub fn capture_chains_from(&self, m: Move) -> (r: Vec<Vec<Move>>)
        requires
            self@.wf(),
            capture_applicable(self@, m),
        ensures
            r@.len() == spec_chains_from(self@, m).len(),
            forall|i: int|
                0 <= i < r@.len() ==> #[trigger] r@[i]@ == spec_chains_from(self@, m)[i],
        decreases count_color(self@.board, opposite(self@.turn)),
    {
        let ghost s0 = self@;
        let mut s2 = self.clone_state();
        let (_capture, _promoted, conts) = s2.update_with_move(&m);
        proof {
            lemma_next_preserves(s0, m);
        }
        if conts.len() == 0 {
            let mut chain: Vec<Move> = Vec::new();
            chain.push(m);
            let mut out: Vec<Vec<Move>> = Vec::new();
            out.push(chain);
            proof {
                assert(spec_chains_from(s0, m) =~= seq![seq![m]]);
                assert(out@[0]@ =~= seq![m]);
            }
            out
        } else {
            proof {
                assert(s2@ =~= spec_board_after(s0, m));
                lemma_valid_jumps_members(s2@, m.to);
                assert(conts@ == spec_valid_jumps(s2@, m.to, s2@.turn));
            }
            let mut out: Vec<Vec<Move>> = Vec::new();
            let mut j: usize = 0;
            while j < conts.len()
                invariant
                    j <= conts@.len(),
                    out@.len() == chains_upto(s2@, conts@, j as int).len(),
                    forall|i: int|
                        0 <= i < out@.len() ==> #[trigger] out@[i]@ == seq![m] + chains_upto(
                            s2@,
                            conts@,
                            j as int,
                        )[i],
                decreases conts@.len() - j,
            {
                let sub = s2.capture_chains_from(conts[j]);
                let ghost prev = chains_upto(s2@, conts@, j as int);
                let ghost subspec = spec_chains_from(s2@, conts@[j as int]);
                let mut k: usize = 0;
                while k < sub.len()
                    invariant
                        k <= sub@.len(),
                        out@.len() == prev.len() + k,
                        forall|i: int|
                            0 <= i < prev.len() ==> #[trigger] out@[i]@ == seq![m] + prev[i],
                        forall|i: int|
                            0 <= i < k ==> #[trigger] out@[prev.len() + i]@ == seq![m]
                                + subspec[i],
                    decreases sub@.len() - k,
                {
                    let mut chain: Vec<Move> = Vec::new();
                    chain.push(m);
                    let sk: &Vec<Move> = &sub[k];
                    let mut t2: usize = 0;
                    while t2 < sk.len()
                        invariant
                            t2 <= sk@.len(),
                            chain@ == seq![m] + sk@.subrange(0, t2 as int),
                        decreases sk@.len() - t2,
                    {
                        chain.push(sk[t2]);
                        proof {
                            assert(chain@ =~= seq![m] + sk@.subrange(0, t2 + 1));
                        }
                        t2 = t2 + 1;
                    }
                    proof {
                        assert(chain@ =~= seq![m] + sk@);
                    }
                    out.push(chain);
                    k = k + 1;
                }
                proof {
                    assert(chains_upto(s2@, conts@, j as int + 1) =~= prev + subspec);
                    assert forall|i: int| 0 <= i < out@.len() implies #[trigger] out@[i]@
                        == seq![m] + chains_upto(s2@, conts@, j as int + 1)[i] by {
                        if i < prev.len() {
                            assert(out@[i]@ == seq![m] + prev[i]);
                        } else {
                            let i2 = i - prev.len();
                            assert(out@[prev.len() + i2]@ == seq![m] + subspec[i2]);
                        }
                    }
                }
                j = j + 1;
            }
            proof {
                assert(spec_next(s0, m) =~= s2@);
                assert(spec_chains_from(s0, m) == prepend_all(
                    m,
                    chains_upto(s2@, conts@, conts@.len() as int),
                ));
            }
            out
        }
    }

    /// The state a compound move leads to, as a fresh value: the receiver is
    /// never mutated, so sibling search branches stay independent.
    #[verifier::loop_isolation(false)]
    pub fn next_state_with_move(&self, moves: &Vec<Move>) -> (r: Self)
        requires
            self@.wf(),
            chain_applicable(self@, moves@),
        ensures
            r@ == spec_next_compound(self@, moves@),
            r@.wf(),
    {
        let mut next = self.clone_state();
        let mut i: usize = 0;
        while i < moves.len()
            invariant
                i <= moves@.len(),
                next@ == spec_apply_chain(self@, moves@, i as int),
                next@.wf(),
            decreases moves@.len() - i,
        {
            let _ = next.update_with_move(&moves[i]);
            proof {
                lemma_next_preserves(spec_apply_chain(self@, moves@, i as int),
                    moves@[i as int]);
            }
            i = i + 1;
        }
        next
    }

    /// Every step available to the side to move, over the whole board in
    /// row-major order: the fallback when no capture exists.
    fn all_step_moves(&self) -> (r: Vec<Move>)
        requires
            self@.wf(),
        ensures
            r@ == spec_all_steps(self@),
    {
        let mut out: Vec<Move> = Vec::new();
        let mut row: usize = 0;
        while row < self.dim
            invariant
                self@.wf(),
                row <= self.dim,
                out@ == steps_rows_upto(self@, row as int),
            decreases self.dim - row,
        {
            let mut col: usize = 0;
            while col < self.dim
                invariant
                    self@.wf(),
                    row < self.dim,
                    col <= self.dim,
                    out@ == steps_rows_upto(self@, row as int) + steps_in_row_upto(
                        self@,
                        row as int,
                        col as int,
                    ),
                decreases self.dim - col,
            {
                let mut steps = self.valid_steps(&Position { row, col }, self.turn);
                out.append(&mut steps);
                col = col + 1;
            }
            row = row + 1;
        }
        out
    }

    /// The authoritative legal-move enumerator. If any capture exists, the
    /// result is every maximal capture chain, one compound move per
    /// root-to-leaf path of the jump tree; otherwise it is every single step
    /// as a one-move compound.
    #[verifier::loop_isolation(false)]
    #[verifier::rlimit(50)]
    pub fn get_possible_moves(&self) -> (r: Vec<Vec<Move>>)
        requires
            self@.wf(),
        ensures
            r@.len() == spec_get_possible_moves(self@).len(),
            forall|i: int|
                0 <= i < r@.len() ==> #[trigger] r@[i]@ == spec_get_possible_moves(self@)[i],
    {
        let caps = self.possible_captures();
        proof {
            lemma_possible_captures_members(self@);
        }
        let mut out: Vec<Vec<Move>> = Vec::new();
        let mut j: usize = 0;
        while j < caps.len()
            invariant
                j <= caps@.len(),
                out@.len() == chains_upto(self@, caps@, j as int).len(),
                forall|i: int|
                    0 <= i < out@.len() ==> #[trigger] out@[i]@ == chains_upto(
                        self@,
                        caps@,
                        j as int,
                    )[i],
            decreases caps@.len() - j,
        {
            let sub = self.capture_chains_from(caps[j]);
            let ghost prev = chains_upto(self@, caps@, j as int);
            let ghost subspec = spec_chains_from(self@, caps@[j as int]);
            let mut k: usize = 0;
            while k < sub.len()
                invariant
                    k <= sub@.len(),
                    out@.len() == prev.len() + k,
                    forall|i: int| 0 <= i < prev.len() ==> #[trigger] out@[i]@ == prev[i],
                    forall|i: int|
                        0 <= i < k ==> #[trigger] out@[prev.len() + i]@ == subspec[i],
                decreases sub@.len() - k,
            {
                let sk: &Vec<Move> = &sub[k];
                let mut chain: Vec<Move> = Vec::new();
                let mut t2: usize = 0;
                while t2 < sk.len()
                    invariant
                        t2 <= sk@.len(),
                        chain@ == sk@.subrange(0, t2 as int),
                    decreases sk@.len() - t2,
                {
                    chain.push(sk[t2]);
                    proof {
                        assert(chain@ =~= sk@.subrange(0, t2 + 1));
                    }
                    t2 = t2 + 1;
                }
                proof {
                    assert(chain@ =~= sk@);
                }
                out.push(chain);
                k = k + 1;
            }
            proof {
                assert(chains_upto(self@, caps@, j as int + 1) =~= prev + subspec);
                assert forall|i: int| 0 <= i < out@.len() implies #[trigger] out@[i]@
                    == chains_upto(self@, caps@, j as int + 1)[i] by {
                    if i < prev.len() {
                        assert(out@[i]@ == prev[i]);
                    } else {
                        let i2 = i - prev.len();
                        assert(out@[prev.len() + i2]@ == subspec[i2]);
                    }
                }
            }
            j = j + 1;
        }
        if out.len() == 0 {
            let steps = self.all_step_moves();
            let mut t: usize = 0;
            while t < steps.len()
                invariant
                    t <= steps@.len(),
                    out@.len() == t,
                    forall|i: int| 0 <= i < t ==> #[trigger] out@[i]@ == seq![steps@[i]],
                decreases steps@.len() - t,
            {
                let mut c: Vec<Move> = Vec::new();
                c.push(steps[t]);
                proof {
                    assert(c@ =~= seq![steps@[t as int]]);
                }
                out.push(c);
                t = t + 1;
            }
        }
        out
    }
}

} // verus!
