use checkers_core::ai::{find_best_moves, AIStatus, AiMode, AiOrchestrator};
use checkers_core::board::{CheckersPiece, Move, PieceColor, PieceType, Position};
use checkers_core::state::CheckersState;

fn mv(fr: usize, fc: usize, tr: usize, tc: usize) -> Move {
    Move { from: Position { row: fr, col: fc }, to: Position { row: tr, col: tc } }
}

#[test]
fn orchestrator_admission_rule_and_fifo_order() {
    let mut orch = AiOrchestrator::new();
    assert_eq!(orch.mode, AiMode::Idle);
    assert!(orch.should_schedule_search());
    // While a search is outstanding, no second one may be scheduled.
    orch.begin_search();
    assert_eq!(orch.mode, AiMode::Thinking);
    assert!(!orch.should_schedule_search());
    assert_eq!(orch.next_move(), None);
    // Completion enqueues the compound move's elementary moves in order.
    let compound = vec![mv(3, 4, 5, 6), mv(5, 6, 7, 8)];
    orch.complete_search(compound);
    assert_eq!(orch.mode, AiMode::Idle);
    // One elementary move per tick, strictly in chain order; no new search
    // until the queue is drained.
    assert!(!orch.should_schedule_search());
    assert_eq!(orch.next_move(), Some(mv(3, 4, 5, 6)));
    assert!(!orch.should_schedule_search());
    assert_eq!(orch.next_move(), Some(mv(5, 6, 7, 8)));
    assert_eq!(orch.next_move(), None);
    assert!(orch.should_schedule_search());
}

#[test]
fn ai_status_toggles() {
    let status = AIStatus { enabled: true };
    assert!(status.enabled);
    let off = AIStatus { enabled: false };
    assert!(!off.enabled);
}

#[test]
fn engine_plays_itself_legally() {
    // A bounded self-play game at a small depth: every compound move the
    // search picks is one of the legal moves, every elementary move passes
    // validation, and the state stays consistent throughout.
    let mut state = CheckersState::new(8);
    let mut turns = 0;
    while turns < 24 && !state.is_game_over() {
        let legal = state.get_possible_moves();
        assert!(!legal.is_empty());
        let mover = state.turn;
        let best = find_best_moves(&state, 2);
        assert!(legal.contains(&best));
        let mut mandated: Option<Position> = None;
        for m in best.iter() {
            assert!(checkers_core::moves::is_valid_move(m, &state, mandated));
            let (_captured, _promoted, continuations) = state.update_with_move(m);
            mandated = continuations.first().map(|c| c.from);
        }
        // A full compound move passes the turn to the opponent.
        assert!(mandated.is_none());
        assert_ne!(state.turn, mover);
        turns += 1;
    }
    if state.is_game_over() {
        assert!(state.get_winner().is_some());
        assert!(state.get_possible_moves().is_empty() || !state.is_loser(state.turn));
    }
}

#[test]
fn find_best_moves_returns_a_legal_compound_move() {
    let state = CheckersState::new(8);
    let best = find_best_moves(&state, 3);
    let legal = state.get_possible_moves();
    assert!(legal.contains(&best));
}

#[test]
fn find_best_moves_plays_the_forced_chain() {
    // The only legal move is a two-jump chain: the orchestrator receives it
    // whole and releases it one elementary move at a time.
    let mut state = CheckersState { turn: PieceColor::Black, dim: 10, board: vec![None; 100] };
    state.board[3 * 10 + 4] = Some(CheckersPiece { col: PieceColor::Black, typ: PieceType::Man });
    state.board[4 * 10 + 5] = Some(CheckersPiece { col: PieceColor::Red, typ: PieceType::Man });
    state.board[6 * 10 + 7] = Some(CheckersPiece { col: PieceColor::Red, typ: PieceType::Man });
    let best = find_best_moves(&state, 4);
    assert_eq!(best, vec![mv(3, 4, 5, 6), mv(5, 6, 7, 8)]);
    let mut orch = AiOrchestrator::new();
    orch.begin_search();
    orch.complete_search(best);
    assert_eq!(orch.next_move(), Some(mv(3, 4, 5, 6)));
    assert_eq!(orch.next_move(), Some(mv(5, 6, 7, 8)));
    assert_eq!(orch.next_move(), None);
}
