use checkers_core::board::{CheckersPiece, Move, PieceColor, PieceType, Position};
use checkers_core::moves::is_valid_move;
use checkers_core::state::CheckersState;

fn empty_state(dim: usize, turn: PieceColor) -> CheckersState {
    CheckersState { turn, dim, board: vec![None; dim * dim] }
}

fn put(state: &mut CheckersState, row: usize, col: usize, color: PieceColor, typ: PieceType) {
    let dim = state.dim;
    state.board[row * dim + col] = Some(CheckersPiece { col: color, typ });
}

fn mv(fr: usize, fc: usize, tr: usize, tc: usize) -> Move {
    Move { from: Position { row: fr, col: fc }, to: Position { row: tr, col: tc } }
}

#[test]
fn standard_start_layout() {
    let state = CheckersState::new(8);
    assert_eq!(state.turn, PieceColor::Black);
    let mut black = 0;
    let mut red = 0;
    for row in 0..8usize {
        for col in 0..8usize {
            match state.at(&Position { row, col }) {
                Some(p) => {
                    assert_eq!((row + (col % 2)) % 2, 0);
                    assert_eq!(p.typ, PieceType::Man);
                    if p.col == PieceColor::Black {
                        assert!(row < 3);
                        black += 1;
                    } else {
                        assert!(row > 4);
                        red += 1;
                    }
                },
                None => {},
            }
        }
    }
    assert_eq!(black, 12);
    assert_eq!(red, 12);
}

#[test]
fn smallest_board_has_no_pieces_and_is_over() {
    // On a 2 by 2 board the starting layout leaves no room for either side.
    let state = CheckersState::new(2);
    for row in 0..2usize {
        for col in 0..2usize {
            assert_eq!(state.at(&Position { row, col }), None);
        }
    }
    assert!(state.get_possible_moves().is_empty());
    assert!(state.is_game_over());
}

#[test]
fn odd_board_keeps_one_free_row() {
    // On a 3 by 3 board each side fills one row, with the middle row free.
    let state = CheckersState::new(3);
    assert!(state.at(&Position { row: 0, col: 0 }).is_some());
    assert_eq!(state.at(&Position { row: 0, col: 0 }).unwrap().col, PieceColor::Black);
    assert!(state.at(&Position { row: 1, col: 1 }).is_none());
    assert!(state.at(&Position { row: 2, col: 2 }).is_some());
    assert_eq!(state.at(&Position { row: 2, col: 2 }).unwrap().col, PieceColor::Red);
    assert!(!state.is_game_over());
}

#[test]
fn largest_board_starts_playable() {
    // The largest supported dimension: the layout is in place and Black has
    // moves.
    let state = CheckersState::new(256);
    assert_eq!(state.turn, PieceColor::Black);
    assert!(state.at(&Position { row: 0, col: 0 }).is_some());
    assert!(state.at(&Position { row: 127, col: 0 }).is_none());
    assert!(state.at(&Position { row: 255, col: 1 }).is_some());
    assert_eq!(state.at(&Position { row: 255, col: 1 }).unwrap().col, PieceColor::Red);
    assert!(state.possible_captures().is_empty());
    assert!(!state.get_possible_moves().is_empty());
    assert!(!state.is_game_over());
}

#[test]
fn jump_classification_and_midpoint() {
    let jump = mv(3, 4, 5, 6);
    assert!(jump.is_jump());
    assert_eq!(jump.middle_pos(), Some(Position { row: 4, col: 5 }));
    let down_jump = mv(5, 6, 3, 4);
    assert_eq!(down_jump.middle_pos(), Some(Position { row: 4, col: 5 }));
    let step = mv(3, 4, 4, 5);
    assert!(!step.is_jump());
    assert_eq!(step.middle_pos(), None);
    let skewed = mv(3, 4, 5, 5);
    assert!(!skewed.is_jump());
    assert_eq!(skewed.middle_pos(), None);
}

#[test]
fn candidate_moves_follow_rank_and_color() {
    let mut state = empty_state(8, PieceColor::Black);
    put(&mut state, 4, 4, PieceColor::Black, PieceType::Man);
    // A Black Man only moves toward higher rows.
    let c = state.candidate_moves(&Position { row: 4, col: 4 }, 1, PieceColor::Black);
    assert_eq!(c, vec![mv(4, 4, 5, 3), mv(4, 4, 5, 5)]);
    // Not the side asked about: nothing.
    let none = state.candidate_moves(&Position { row: 4, col: 4 }, 1, PieceColor::Red);
    assert!(none.is_empty());
    // A King reaches all four diagonals, upward directions first.
    put(&mut state, 4, 4, PieceColor::Black, PieceType::King);
    let k = state.candidate_moves(&Position { row: 4, col: 4 }, 2, PieceColor::Black);
    assert_eq!(k, vec![mv(4, 4, 2, 2), mv(4, 4, 2, 6), mv(4, 4, 6, 2), mv(4, 4, 6, 6)]);
}

#[test]
fn valid_steps_filter_occupied_destinations() {
    let mut state = empty_state(8, PieceColor::Black);
    put(&mut state, 4, 4, PieceColor::Black, PieceType::Man);
    put(&mut state, 5, 3, PieceColor::Black, PieceType::Man);
    let steps = state.valid_steps(&Position { row: 4, col: 4 }, PieceColor::Black);
    assert_eq!(steps, vec![mv(4, 4, 5, 5)]);
}

#[test]
fn valid_jumps_need_opponent_midpoint_and_empty_landing() {
    let mut state = empty_state(8, PieceColor::Black);
    put(&mut state, 3, 4, PieceColor::Black, PieceType::Man);
    put(&mut state, 4, 5, PieceColor::Red, PieceType::Man);
    put(&mut state, 4, 3, PieceColor::Black, PieceType::Man);
    let jumps = state.valid_jumps(&Position { row: 3, col: 4 }, PieceColor::Black);
    // Over the own piece at (4,3): no jump; over the Red piece: one jump.
    assert_eq!(jumps, vec![mv(3, 4, 5, 6)]);
    // Occupied landing square kills the jump.
    put(&mut state, 5, 6, PieceColor::Red, PieceType::Man);
    let blocked = state.valid_jumps(&Position { row: 3, col: 4 }, PieceColor::Black);
    assert!(blocked.is_empty());
}

#[test]
fn scenario_standard_start_depth_one() {
    // Standard start, Black to move: exactly the forward single steps of
    // Black's front row of Men (row 2), no jumps anywhere.
    let state = CheckersState::new(8);
    assert!(state.possible_captures().is_empty());
    let moves = state.get_possible_moves();
    let expected = vec![
        vec![mv(2, 0, 3, 1)],
        vec![mv(2, 2, 3, 1)],
        vec![mv(2, 2, 3, 3)],
        vec![mv(2, 4, 3, 3)],
        vec![mv(2, 4, 3, 5)],
        vec![mv(2, 6, 3, 5)],
        vec![mv(2, 6, 3, 7)],
    ];
    assert_eq!(moves, expected);
}

#[test]
fn scenario_single_mandatory_jump() {
    // Board empty except a Black Man at (3,4) and a Red Man at (4,5), with
    // (5,6) empty: exactly one compound move, the jump.
    let mut state = empty_state(8, PieceColor::Black);
    put(&mut state, 3, 4, PieceColor::Black, PieceType::Man);
    put(&mut state, 4, 5, PieceColor::Red, PieceType::Man);
    let moves = state.get_possible_moves();
    assert_eq!(moves, vec![vec![mv(3, 4, 5, 6)]]);
    // Even if another Black piece elsewhere has step options.
    put(&mut state, 0, 0, PieceColor::Black, PieceType::Man);
    assert!(!state.valid_steps(&Position { row: 0, col: 0 }, PieceColor::Black).is_empty());
    let moves2 = state.get_possible_moves();
    assert_eq!(moves2, vec![vec![mv(3, 4, 5, 6)]]);
}

#[test]
fn scenario_double_jump_is_one_compound_move() {
    // After (3,4) -> (5,6) capturing (4,5), a second capture over (6,7) is
    // available from (5,6); a 10x10 board keeps the second landing square off
    // the back rank. The enumerator must return one compound move with both
    // jumps, not two single-jump entries.
    let mut state = empty_state(10, PieceColor::Black);
    put(&mut state, 3, 4, PieceColor::Black, PieceType::Man);
    put(&mut state, 4, 5, PieceColor::Red, PieceType::Man);
    put(&mut state, 6, 7, PieceColor::Red, PieceType::Man);
    let moves = state.get_possible_moves();
    assert_eq!(moves, vec![vec![mv(3, 4, 5, 6), mv(5, 6, 7, 8)]]);
}

#[test]
fn scenario_promotion_ends_chain() {
    // A Man capturing into the back rank stops there, even though a King on
    // that square would have a further jump over (6,5).
    let mut state = empty_state(8, PieceColor::Black);
    put(&mut state, 5, 2, PieceColor::Black, PieceType::Man);
    put(&mut state, 6, 3, PieceColor::Red, PieceType::Man);
    put(&mut state, 6, 5, PieceColor::Red, PieceType::Man);
    // A King at (7,4) could jump backward over (6,5) to (5,6):
    {
        let mut probe = empty_state(8, PieceColor::Black);
        put(&mut probe, 7, 4, PieceColor::Black, PieceType::King);
        put(&mut probe, 6, 5, PieceColor::Red, PieceType::Man);
        assert_eq!(
            probe.valid_jumps(&Position { row: 7, col: 4 }, PieceColor::Black),
            vec![mv(7, 4, 5, 6)]
        );
    }
    let moves = state.get_possible_moves();
    assert_eq!(moves, vec![vec![mv(5, 2, 7, 4)]]);
    // Applying the jump promotes, reports no continuation, and passes the
    // turn.
    let (captured, promoted, continuations) = state.update_with_move(&mv(5, 2, 7, 4));
    assert_eq!(captured, Some(Position { row: 6, col: 3 }));
    assert!(promoted);
    assert!(continuations.is_empty());
    assert_eq!(state.turn, PieceColor::Red);
    let landed = state.at(&Position { row: 7, col: 4 }).unwrap();
    assert_eq!(landed.typ, PieceType::King);
    assert_eq!(landed.col, PieceColor::Black);
    assert_eq!(state.at(&Position { row: 6, col: 3 }), None);
}

#[test]
fn captures_are_mandatory_no_step_offered() {
    // Black has a free step at (0,0) and a jump at (3,4): only the jump chain
    // is offered, and it begins with a possible capture.
    let mut state = empty_state(8, PieceColor::Black);
    put(&mut state, 0, 0, PieceColor::Black, PieceType::Man);
    put(&mut state, 3, 4, PieceColor::Black, PieceType::Man);
    put(&mut state, 4, 5, PieceColor::Red, PieceType::Man);
    let captures = state.possible_captures();
    assert_eq!(captures, vec![mv(3, 4, 5, 6)]);
    let moves = state.get_possible_moves();
    assert_eq!(moves.len(), 1);
    for compound in moves.iter() {
        assert!(compound[0].is_jump());
        assert!(captures.contains(&compound[0]));
    }
}

#[test]
fn update_with_move_step_switches_turn() {
    let mut state = empty_state(8, PieceColor::Black);
    put(&mut state, 2, 2, PieceColor::Black, PieceType::Man);
    put(&mut state, 5, 5, PieceColor::Red, PieceType::Man);
    let (captured, promoted, continuations) = state.update_with_move(&mv(2, 2, 3, 3));
    assert_eq!(captured, None);
    assert!(!promoted);
    assert!(continuations.is_empty());
    assert_eq!(state.turn, PieceColor::Red);
    assert_eq!(state.at(&Position { row: 2, col: 2 }), None);
    let moved = state.at(&Position { row: 3, col: 3 }).unwrap();
    assert_eq!(moved.col, PieceColor::Black);
    assert_eq!(moved.typ, PieceType::Man);
}

#[test]
fn update_with_move_reports_chain_continuation() {
    // Mid-chain: after the first jump a second is mandatory, so the turn is
    // kept and the continuation is reported.
    let mut state = empty_state(10, PieceColor::Black);
    put(&mut state, 3, 4, PieceColor::Black, PieceType::Man);
    put(&mut state, 4, 5, PieceColor::Red, PieceType::Man);
    put(&mut state, 6, 7, PieceColor::Red, PieceType::Man);
    let (captured, promoted, continuations) = state.update_with_move(&mv(3, 4, 5, 6));
    assert_eq!(captured, Some(Position { row: 4, col: 5 }));
    assert!(!promoted);
    assert_eq!(continuations, vec![mv(5, 6, 7, 8)]);
    assert_eq!(state.turn, PieceColor::Black);
    let (captured2, promoted2, continuations2) = state.update_with_move(&mv(5, 6, 7, 8));
    assert_eq!(captured2, Some(Position { row: 6, col: 7 }));
    assert!(!promoted2);
    assert!(continuations2.is_empty());
    assert_eq!(state.turn, PieceColor::Red);
}

#[test]
fn moves_empty_exactly_when_side_to_move_lost() {
    // Black to move with no Black piece: no moves, game over, Red wins.
    let mut only_red = empty_state(8, PieceColor::Black);
    put(&mut only_red, 4, 4, PieceColor::Red, PieceType::Man);
    assert!(only_red.get_possible_moves().is_empty());
    assert!(only_red.is_loser(PieceColor::Black));
    assert!(only_red.is_game_over());
    assert_eq!(only_red.get_winner(), Some(PieceColor::Red));
    // Black to move with a blocked Man in the corner: owns a piece but no
    // move.
    let mut blocked = empty_state(8, PieceColor::Black);
    put(&mut blocked, 7, 7, PieceColor::Black, PieceType::Man);
    put(&mut blocked, 6, 6, PieceColor::Red, PieceType::Man);
    put(&mut blocked, 5, 5, PieceColor::Red, PieceType::Man);
    assert!(blocked.get_possible_moves().is_empty());
    assert!(blocked.is_loser(PieceColor::Black));
    assert!(blocked.is_game_over());
    assert_eq!(blocked.get_winner(), Some(PieceColor::Red));
    // The fresh game has moves and no winner.
    let start = CheckersState::new(8);
    assert!(!start.get_possible_moves().is_empty());
    assert!(!start.is_game_over());
    assert_eq!(start.get_winner(), None);
}

#[test]
fn validation_enforces_mandatory_capture() {
    let mut state = empty_state(8, PieceColor::Black);
    put(&mut state, 0, 0, PieceColor::Black, PieceType::Man);
    put(&mut state, 3, 4, PieceColor::Black, PieceType::Man);
    put(&mut state, 4, 5, PieceColor::Red, PieceType::Man);
    // The step is legal geometry but refused while a capture exists.
    assert!(!is_valid_move(&mv(0, 0, 1, 1), &state, None));
    assert!(is_valid_move(&mv(3, 4, 5, 6), &state, None));
    // A mandated source square (mid-chain) rejects other pieces.
    assert!(!is_valid_move(
        &mv(3, 4, 5, 6),
        &state,
        Some(Position { row: 0, col: 0 })
    ));
    assert!(is_valid_move(
        &mv(3, 4, 5, 6),
        &state,
        Some(Position { row: 3, col: 4 })
    ));
    // Without captures, only valid steps pass.
    let mut quiet = empty_state(8, PieceColor::Black);
    put(&mut quiet, 2, 2, PieceColor::Black, PieceType::Man);
    assert!(is_valid_move(&mv(2, 2, 3, 3), &quiet, None));
    assert!(!is_valid_move(&mv(2, 2, 4, 4), &quiet, None));
    assert!(!is_valid_move(&mv(2, 2, 1, 1), &quiet, None));
}

#[test]
fn occupied_squares_keep_one_parity() {
    // The start occupies only even-parity squares, and every applied move
    // keeps it that way.
    let mut state = CheckersState::new(8);
    let mut plies = 0;
    loop {
        for row in 0..8usize {
            for col in 0..8usize {
                if state.at(&Position { row, col }).is_some() {
                    assert_eq!((row + col) % 2, 0);
                }
            }
        }
        if plies >= 6 || state.is_game_over() {
            break;
        }
        let moves = state.get_possible_moves();
        for m in moves[0].iter() {
            let _ = state.update_with_move(m);
        }
        plies += 1;
    }
}

#[test]
fn interior_squares() {
    let state = CheckersState::new(8);
    assert!(state.is_in_middle(Position { row: 2, col: 2 }));
    assert!(state.is_in_middle(Position { row: 5, col: 5 }));
    assert!(!state.is_in_middle(Position { row: 1, col: 4 }));
    assert!(!state.is_in_middle(Position { row: 4, col: 6 }));
}

#[test]
fn next_state_with_move_leaves_receiver_unchanged() {
    let mut state = empty_state(10, PieceColor::Black);
    put(&mut state, 3, 4, PieceColor::Black, PieceType::Man);
    put(&mut state, 4, 5, PieceColor::Red, PieceType::Man);
    put(&mut state, 6, 7, PieceColor::Red, PieceType::Man);
    let compound = vec![mv(3, 4, 5, 6), mv(5, 6, 7, 8)];
    let next = state.next_state_with_move(&compound);
    // The receiver still holds all three pieces.
    assert!(state.at(&Position { row: 3, col: 4 }).is_some());
    assert!(state.at(&Position { row: 4, col: 5 }).is_some());
    assert!(state.at(&Position { row: 6, col: 7 }).is_some());
    // The new state played the whole chain and passed the turn.
    assert_eq!(next.turn, PieceColor::Red);
    assert_eq!(next.at(&Position { row: 4, col: 5 }), None);
    assert_eq!(next.at(&Position { row: 6, col: 7 }), None);
    assert!(next.at(&Position { row: 7, col: 8 }).is_some());
    assert!(next.is_game_over());
    assert_eq!(next.get_winner(), Some(PieceColor::Black));
}
