use checkers_core::alphabeta::minimax_alpha_beta;
use checkers_core::board::{CheckersPiece, Move, PieceColor, PieceType, Position};
use checkers_core::score::{SCORE_LOSS, SCORE_WIN};
use checkers_core::state::CheckersState;

fn empty_state(dim: usize, turn: PieceColor) -> CheckersState {
    CheckersState { turn, dim, board: vec![None; dim * dim] }
}

fn put(state: &mut CheckersState, row: usize, col: usize, color: PieceColor, typ: PieceType) {
    let dim = state.dim;
    state.board[row * dim + col] = Some(CheckersPiece { col: color, typ });
}

fn mv(fr: usize, fc: usize, tr: usize, tc: usize) -> Move {
    Move { from: Position { row: fr, col: fc }, to: Position { row: tr, col: tc } }
}

/// Plain minimax with no pruning, built on the same public operations the
/// search uses: the reference for the pruning-changes-nothing property.
fn plain_minimax(state: &CheckersState, depth: u32, maximizing: bool, player: PieceColor) -> i64 {
    if depth == 0 || state.is_game_over() {
        return state.score_state(player);
    }
    let moves = state.get_possible_moves();
    let mut best: Option<i64> = None;
    for m in moves.iter() {
        let next = state.next_state_with_move(m);
        let score = plain_minimax(&next, depth - 1, !maximizing, player);
        best = Some(match best {
            None => score,
            Some(b) => {
                if maximizing {
                    if score > b { score } else { b }
                } else {
                    if score < b { score } else { b }
                }
            },
        });
    }
    best.unwrap()
}

#[test]
fn score_standard_start_is_even() {
    let state = CheckersState::new(8);
    assert_eq!(state.score_state(PieceColor::Black), 0);
    assert_eq!(state.score_state(PieceColor::Red), 0);
}

#[test]
fn score_sentinels_ignore_other_material() {
    // The opponent keeps no piece: maximal sentinel, whatever else stands.
    let mut winning = empty_state(8, PieceColor::Black);
    put(&mut winning, 4, 4, PieceColor::Black, PieceType::Man);
    put(&mut winning, 2, 2, PieceColor::Black, PieceType::King);
    assert_eq!(winning.score_state(PieceColor::Black), SCORE_WIN);
    // The perspective player keeps no piece: minimal sentinel.
    assert_eq!(winning.score_state(PieceColor::Red), SCORE_LOSS);
    // A board with no pieces at all counts as lost for either perspective.
    let bare = empty_state(8, PieceColor::Black);
    assert_eq!(bare.score_state(PieceColor::Black), SCORE_LOSS);
    assert_eq!(bare.score_state(PieceColor::Red), SCORE_LOSS);
}

#[test]
fn score_material_exact_value() {
    // Black: two Men and one King in the interior; Red: one Man.
    // From Black: 2*50 + 75 + 2 - 50 = 127; from Red the negation.
    let mut state = empty_state(8, PieceColor::Black);
    put(&mut state, 1, 1, PieceColor::Black, PieceType::Man);
    put(&mut state, 2, 6, PieceColor::Black, PieceType::Man);
    put(&mut state, 4, 4, PieceColor::Black, PieceType::King);
    put(&mut state, 6, 2, PieceColor::Red, PieceType::Man);
    assert_eq!(state.score_state(PieceColor::Black), 127);
    assert_eq!(state.score_state(PieceColor::Red), -127);
}

#[test]
fn score_king_interior_bonus_only_inside() {
    // A King on the edge earns 75, in the interior 77.
    let mut edge = empty_state(8, PieceColor::Black);
    put(&mut edge, 0, 2, PieceColor::Black, PieceType::King);
    put(&mut edge, 7, 7, PieceColor::Red, PieceType::Man);
    assert_eq!(edge.score_state(PieceColor::Black), 75 - 50);
    let mut inside = empty_state(8, PieceColor::Black);
    put(&mut inside, 3, 3, PieceColor::Black, PieceType::King);
    put(&mut inside, 7, 7, PieceColor::Red, PieceType::Man);
    assert_eq!(inside.score_state(PieceColor::Black), 77 - 50);
}

#[test]
fn search_at_depth_zero_returns_evaluation_and_no_move() {
    let state = CheckersState::new(8);
    let (score, best) = minimax_alpha_beta(
        &state,
        0,
        i64::MIN,
        i64::MAX,
        true,
        &PieceColor::Black,
    );
    assert_eq!(score, state.score_state(PieceColor::Black));
    assert!(best.is_none());
    let mut lopsided = empty_state(8, PieceColor::Black);
    put(&mut lopsided, 3, 3, PieceColor::Black, PieceType::King);
    put(&mut lopsided, 6, 2, PieceColor::Red, PieceType::Man);
    let (score2, best2) = minimax_alpha_beta(
        &lopsided,
        0,
        i64::MIN,
        i64::MAX,
        true,
        &PieceColor::Red,
    );
    assert_eq!(score2, lopsided.score_state(PieceColor::Red));
    assert!(best2.is_none());
}

#[test]
fn search_at_terminal_root_returns_no_move() {
    let mut over = empty_state(8, PieceColor::Black);
    put(&mut over, 4, 4, PieceColor::Red, PieceType::Man);
    assert!(over.is_game_over());
    let (score, best) = minimax_alpha_beta(&over, 3, i64::MIN, i64::MAX, true, &PieceColor::Black);
    assert_eq!(score, SCORE_LOSS);
    assert!(best.is_none());
}

#[test]
fn pruned_score_equals_plain_minimax() {
    // Pruning must never change the score: compare against the unpruned
    // recursion on several positions and depths.
    let mut boards: Vec<CheckersState> = Vec::new();
    boards.push(CheckersState::new(8));
    let mut skirmish = empty_state(8, PieceColor::Black);
    put(&mut skirmish, 2, 2, PieceColor::Black, PieceType::Man);
    put(&mut skirmish, 3, 3, PieceColor::Red, PieceType::Man);
    put(&mut skirmish, 5, 5, PieceColor::Red, PieceType::Man);
    put(&mut skirmish, 1, 5, PieceColor::Black, PieceType::King);
    boards.push(skirmish);
    let mut endgame = empty_state(8, PieceColor::Red);
    put(&mut endgame, 6, 2, PieceColor::Red, PieceType::King);
    put(&mut endgame, 3, 3, PieceColor::Black, PieceType::Man);
    put(&mut endgame, 2, 6, PieceColor::Black, PieceType::Man);
    boards.push(endgame);
    for state in boards.iter() {
        for depth in 0..4u32 {
            let expected = plain_minimax(state, depth, true, state.turn);
            let (score, _) = minimax_alpha_beta(
                state,
                depth,
                i64::MIN,
                i64::MAX,
                true,
                &state.turn,
            );
            assert_eq!(score, expected);
            let expected_min = plain_minimax(state, depth, false, state.turn);
            let (score_min, _) = minimax_alpha_beta(
                state,
                depth,
                i64::MIN,
                i64::MAX,
                false,
                &state.turn,
            );
            assert_eq!(score_min, expected_min);
        }
    }
}

#[test]
fn search_selects_one_of_the_legal_moves() {
    // Standard start, depth 1: the chosen move is one of the seven opening
    // steps.
    let state = CheckersState::new(8);
    let legal = state.get_possible_moves();
    let (_score, best) = minimax_alpha_beta(
        &state,
        1,
        i64::MIN,
        i64::MAX,
        true,
        &PieceColor::Black,
    );
    let chosen = best.expect("a non-terminal root at depth 1 must produce a move");
    assert!(legal.contains(&chosen));
}

#[test]
fn search_takes_the_winning_capture() {
    // Black's only move is the jump that removes Red's last piece; the
    // search reports the certain win.
    let mut state = empty_state(8, PieceColor::Black);
    put(&mut state, 3, 4, PieceColor::Black, PieceType::Man);
    put(&mut state, 4, 5, PieceColor::Red, PieceType::Man);
    let (score, best) = minimax_alpha_beta(&state, 2, i64::MIN, i64::MAX, true, &PieceColor::Black);
    assert_eq!(score, SCORE_WIN);
    assert_eq!(best.unwrap(), vec![mv(3, 4, 5, 6)]);
}
