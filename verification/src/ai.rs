//! The orchestrator that runs the search off the interactive loop, and the
//! checkers instance of the search engine's game contract. The orchestrator
//! is a state machine over two modes: *idle* (no search outstanding) and
//! *thinking* (exactly one search outstanding). A completed search hands
//! back one compound move, which is released as a FIFO queue of elementary
//! moves, one per tick. A new search may only be scheduled once the queue
//! has been fully drained — the sole admission-control rule.
//!
//! The decisions live here, verified; the plumbing that actually spawns a
//! worker and polls it is ordinary code around this library, which hands the
//! completed result back through [`AiOrchestrator::complete_search`].

use vstd::prelude::*;
use crate::board::{Move, PieceColor};
use crate::moves::{
    chain_applicable, lemma_apply_chain_wf, lemma_moves_nonempty,
    lemma_possible_moves_applicable, spec_get_possible_moves, spec_next_compound,
};
use crate::score::{lemma_score_bounds, spec_score_state};
use crate::alphabeta::{minimax_alpha_beta, spec_minimax, TwoPlayerGameState};
use crate::state::{spec_game_over, CheckersState, StateModel};

verus! {

/// The fixed search depth, in plies.
pub const AI_SEARCH_DEPTH: u32 = 10;

/// Whether the computer plays one side at all.
pub struct AIStatus {
    pub enabled: bool,
}

/// The checkers state meets the search engine's contract: its model is the
/// board model, a compound move is a vector of elementary moves modelled by
/// its sequence, and the four operations are the ones this library verifies.
impl TwoPlayerGameState for CheckersState {
    type Model = StateModel;

    type MoveModel = Seq<Move>;

    type GameMove = Vec<Move>;

    type Player = PieceColor;

    open spec fn model(&self) -> StateModel {
        self@
    }

    open spec fn inv(m: StateModel) -> bool {
        m.wf()
    }

    open spec fn move_model(gm: Vec<Move>) -> Seq<Move> {
        gm@
    }

    open spec fn moves_of(m: StateModel) -> Seq<Seq<Move>> {
        spec_get_possible_moves(m)
    }

    open spec fn next_of(m: StateModel, mv: Seq<Move>) -> StateModel {
        spec_next_compound(m, mv)
    }

    open spec fn score_of(m: StateModel, p: PieceColor) -> int {
        spec_score_state(m, p)
    }

    open spec fn over_of(m: StateModel) -> bool {
        spec_game_over(m)
    }

    proof fn lemma_score_bounds(m: StateModel, p: PieceColor) {
        lemma_score_bounds(m, p);
    }

    proof fn lemma_moves_nonempty(m: StateModel) {
        lemma_moves_nonempty(m);
    }

    proof fn lemma_next_inv(m: StateModel, i: int) {
        lemma_possible_moves_applicable(m);
        lemma_apply_chain_wf(
            m,
            spec_get_possible_moves(m)[i],
            spec_get_possible_moves(m)[i].len() as int,
        );
    }

    fn get_possible_moves(&self) -> (r: Vec<Vec<Move>>) {
        CheckersState::get_possible_moves(self)
    }

    fn next_state_with_move(&self, m: &Vec<Move>) -> (t: Self) {
        proof {
            lemma_possible_moves_applicable(self@);
            let i = choose|i: int|
                0 <= i < spec_get_possible_moves(self@).len() && spec_get_possible_moves(
                    self@,
                )[i] == m@;
            assert(chain_applicable(self@, spec_get_possible_moves(self@)[i]));
            assert(chain_applicable(self@, m@));
        }
        CheckersState::next_state_with_move(self, m)
    }

    fn score_state(&self, player: &PieceColor) -> (r: i64) {
        CheckersState::score_state(self, *player)
    }

    fn is_game_over(&self) -> (r: bool) {
        CheckersState::is_game_over(self)
    }
}

/// The two observable modes of the orchestrator.
#[derive(Clone, Copy, Debug, PartialEq, Eq, Structural)]
pub enum AiMode {
    Idle,
    Thinking,
}

/// The orchestrator: its mode and the elementary moves of the last computed
/// compound move that have not been dispatched yet, front first.
pub struct AiOrchestrator {
    pub mode: AiMode,
    pub queue: Vec<Move>,
}

impl AiOrchestrator {
    /// At most one search is outstanding, and only ever scheduled on an
    /// empty queue: while thinking, the queue stays empty.
    pub open spec fn inv(self) -> bool {
        self.mode == AiMode::Thinking ==> self.queue@.len() == 0
    }

    /// A fresh orchestrator: idle, nothing queued.
    pub fn new() -> (r: Self)
        ensures
            r.inv(),
            r.mode == AiMode::Idle,
            r.queue@.len() == 0,
    {
        AiOrchestrator { mode: AiMode::Idle, queue: Vec::new() }
    }

    /// The admission rule: schedule a search only when idle with a fully
    /// drained queue.
    pub fn should_schedule_search(&self) -> (r: bool)
        ensures
            r == (self.mode == AiMode::Idle && self.queue@.len() == 0),
    {
        matches!(self.mode, AiMode::Idle) && self.queue.len() == 0
    }

    /// Marks the one outstanding search as submitted.
    pub fn begin_search(&mut self)
        requires
            old(self).inv(),
            old(self).mode == AiMode::Idle,
            old(self).queue@.len() == 0,
        ensures
            final(self).inv(),
            final(self).mode == AiMode::Thinking,
            final(self).queue@.len() == 0,
    {
        self.mode = AiMode::Thinking;
    }

    /// Accepts the completed search's compound move: its elementary moves
    /// are enqueued in order and the orchestrator returns to idle.
    pub fn complete_search(&mut self, best: Vec<Move>)
        requires
            old(self).inv(),
            old(self).mode == AiMode::Thinking,
        ensures
            final(self).inv(),
            final(self).mode == AiMode::Idle,
            final(self).queue@ == best@,
    {
        self.queue = best;
        self.mode = AiMode::Idle;
    }

    /// Dispatches exactly one elementary move per tick: the front of the
    /// queue, in the order the chain was computed.
    pub fn next_move(&mut self) -> (r: Option<Move>)
        requires
            old(self).inv(),
        ensures
            final(self).inv(),
            final(self).mode == old(self).mode,
            old(self).queue@.len() == 0 ==> r is None && final(self).queue@
                == old(self).queue@,
            old(self).queue@.len() > 0 ==> r == Some(old(self).queue@[0]) && final(self).queue@
                == old(self).queue@.skip(1),
    {
        if self.queue.len() == 0 {
            return None;
        }
        let m = self.queue.remove(0);
        proof {
            assert(self.queue@ =~= old(self).queue@.skip(1));
        }
        Some(m)
    }
}

/// The move the computer plays for the side to move: a full-window search of
/// the fixed depth. The chosen compound move is one of the legal moves and
/// attains the exact minimax value of the position.
pub fn find_best_moves(state: &CheckersState, depth: u32) -> (r: Vec<Move>)
    requires
        state@.wf(),
        !spec_game_over(state@),
        depth >= 1,
    ensures
        exists|i: int|
            0 <= i < spec_get_possible_moves(state@).len() && spec_get_possible_moves(state@)[i]
                == r@,
        spec_minimax::<CheckersState>(
            spec_next_compound(state@, r@),
            (depth - 1) as nat,
            false,
            state@.turn,
        ) == spec_minimax::<CheckersState>(state@, depth as nat, true, state@.turn),
{
    let (_score, best) = minimax_alpha_beta(state, depth, i64::MIN, i64::MAX, true,
        &state.turn);
    best.unwrap()
}

} // verus!
