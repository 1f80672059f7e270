//! Depth-bounded minimax search with alpha-beta pruning, generic over any
//! two-player game state that exposes move enumeration, move application,
//! evaluation and a terminal test with exact contracts. The specification
//! value [`spec_minimax`] is plain minimax with no pruning; the search's
//! contract states the fail-soft relation between its result and that value,
//! so with the full window the pruned score equals the unpruned one —
//! pruning only saves work, never changes the result.

use vstd::prelude::*;
use crate::score::{SCORE_LOSS, SCORE_WIN};

verus! {

/// The contract the search engine requires from a game: a mathematical
/// model of states and moves, the four operations over it, and the three
/// facts the search's own proof rests on. Any concrete game can plug in by
/// meeting it; the checkers state does.
pub trait TwoPlayerGameState: Sized {
    /// The mathematical model of a state.
    type Model;

    /// The mathematical model of one (compound) move.
    type MoveModel;

    /// The executable representation of one (compound) move.
    type GameMove;

    /// The player from whose perspective positions are scored.
    type Player;

    /// The model of this state.
    spec fn model(&self) -> Self::Model;

    /// The states the search may visit.
    spec fn inv(m: Self::Model) -> bool;

    /// The model of an executable move.
    spec fn move_model(gm: Self::GameMove) -> Self::MoveModel;

    /// Every legal move of the side to move, in a fixed order.
    spec fn moves_of(m: Self::Model) -> Seq<Self::MoveModel>;

    /// The state one move leads to.
    spec fn next_of(m: Self::Model, mv: Self::MoveModel) -> Self::Model;

    /// The evaluation of a state from a player's perspective.
    spec fn score_of(m: Self::Model, p: Self::Player) -> int;

    /// Whether the game is over.
    spec fn over_of(m: Self::Model) -> bool;

    /// Evaluations stay between the two sentinels.
    proof fn lemma_score_bounds(m: Self::Model, p: Self::Player)
        requires
            Self::inv(m),
        ensures
            SCORE_LOSS <= Self::score_of(m, p) <= SCORE_WIN,
    ;

    /// A state that is not over offers at least one move.
    proof fn lemma_moves_nonempty(m: Self::Model)
        requires
            Self::inv(m),
            !Self::over_of(m),
        ensures
            Self::moves_of(m).len() > 0,
    ;

    /// Every legal move leads to a state the search may visit.
    proof fn lemma_next_inv(m: Self::Model, i: int)
        requires
            Self::inv(m),
            0 <= i < Self::moves_of(m).len(),
        ensures
            Self::inv(Self::next_of(m, Self::moves_of(m)[i])),
    ;

    /// Every semantically distinct move available to the side to move.
    fn get_possible_moves(&self) -> (r: Vec<Self::GameMove>)
        requires
            Self::inv(self.model()),
        ensures
            r@.len() == Self::moves_of(self.model()).len(),
            forall|i: int|
                0 <= i < r@.len() ==> Self::move_model(#[trigger] r@[i]) == Self::moves_of(
                    self.model(),
                )[i],
    ;

    /// The state a move leads to, as a fresh value: the receiver is never
    /// mutated, so sibling search branches stay independent.
    fn next_state_with_move(&self, m: &Self::GameMove) -> (t: Self)
        requires
            Self::inv(self.model()),
            Self::moves_of(self.model()).contains(Self::move_model(*m)),
        ensures
            t.model() == Self::next_of(self.model(), Self::move_model(*m)),
    ;

    /// The evaluation of this state from `player`'s perspective.
    fn score_state(&self, player: &Self::Player) -> (r: i64)
        requires
            Self::inv(self.model()),
        ensures
            r as int == Self::score_of(self.model(), *player),
            SCORE_LOSS <= r <= SCORE_WIN,
    ;

    /// Whether the game is over.
    fn is_game_over(&self) -> (r: bool)
        requires
            Self::inv(self.model()),
        ensures
            r == Self::over_of(self.model()),
    ;
}

/// The minimax value of a state: at depth 0 or in a terminal state, its
/// evaluation; otherwise the best child value — maximal for the maximizing
/// side, minimal for the minimizing side.
pub open spec fn spec_minimax<S: TwoPlayerGameState>(
    m: S::Model,
    depth: nat,
    maximizing: bool,
    player: S::Player,
) -> int
    decreases depth, 0int, 0int,
{
    if depth == 0 || S::over_of(m) {
        S::score_of(m, player)
    } else {
        let ms = S::moves_of(m);
        minimax_over::<S>(m, ms, ms.len() as int, (depth - 1) as nat, maximizing, player)
    }
}

/// The best minimax value among the first `n` moves of `ms`, evaluated at
/// `child_depth`, from a node that is maximizing iff `maximizing`. Over no
/// moves it is a neutral element strictly outside the score range.
pub open spec fn minimax_over<S: TwoPlayerGameState>(
    m: S::Model,
    ms: Seq<S::MoveModel>,
    n: int,
    child_depth: nat,
    maximizing: bool,
    player: S::Player,
) -> int
    decreases child_depth, 2int, n,
{
    if n <= 0 {
        if maximizing {
            SCORE_LOSS - 1
        } else {
            SCORE_WIN + 1
        }
    } else {
        let rest = minimax_over::<S>(m, ms, n - 1, child_depth, maximizing, player);
        let v = child_value::<S>(m, ms, n - 1, child_depth, maximizing, player);
        if maximizing {
            if v > rest {
                v
            } else {
                rest
            }
        } else {
            if v < rest {
                v
            } else {
                rest
            }
        }
    }
}

/// The minimax value of the state reached by the `i`-th move, seen from the
/// parent node's mode.
pub open spec fn child_value<S: TwoPlayerGameState>(
    m: S::Model,
    ms: Seq<S::MoveModel>,
    i: int,
    child_depth: nat,
    maximizing: bool,
    player: S::Player,
) -> int
    decreases child_depth, 1int, 0int,
{
    spec_minimax::<S>(S::next_of(m, ms[i]), child_depth, !maximizing, player)
}

/// Minimax values stay between the two sentinels.
pub proof fn lemma_minimax_bounds<S: TwoPlayerGameState>(
    m: S::Model,
    depth: nat,
    maximizing: bool,
    player: S::Player,
)
    requires
        S::inv(m),
    ensures
        SCORE_LOSS <= spec_minimax::<S>(m, depth, maximizing, player) <= SCORE_WIN,
    decreases depth, 3int, 0int,
{
    if depth == 0 || S::over_of(m) {
        S::lemma_score_bounds(m, player);
    } else {
        let ms = S::moves_of(m);
        S::lemma_moves_nonempty(m);
        lemma_minimax_over_bounds::<S>(m, ms, ms.len() as int, (depth - 1) as nat, maximizing,
            player);
    }
}

/// The best value over a non-empty prefix of the legal moves stays between
/// the sentinels.
proof fn lemma_minimax_over_bounds<S: TwoPlayerGameState>(
    m: S::Model,
    ms: Seq<S::MoveModel>,
    n: int,
    child_depth: nat,
    maximizing: bool,
    player: S::Player,
)
    requires
        S::inv(m),
        1 <= n <= ms.len(),
        ms == S::moves_of(m),
    ensures
        SCORE_LOSS <= minimax_over::<S>(m, ms, n, child_depth, maximizing, player)
            <= SCORE_WIN,
    decreases child_depth, 5int, n,
{
    lemma_child_value_bounds::<S>(m, ms, n - 1, child_depth, maximizing, player);
    if n > 1 {
        lemma_minimax_over_bounds::<S>(m, ms, n - 1, child_depth, maximizing, player);
    }
}

/// The value of one legal child stays between the sentinels.
proof fn lemma_child_value_bounds<S: TwoPlayerGameState>(
    m: S::Model,
    ms: Seq<S::MoveModel>,
    i: int,
    child_depth: nat,
    maximizing: bool,
    player: S::Player,
)
    requires
        S::inv(m),
        0 <= i < ms.len(),
        ms == S::moves_of(m),
    ensures
        SCORE_LOSS <= child_value::<S>(m, ms, i, child_depth, maximizing, player)
            <= SCORE_WIN,
    decreases child_depth, 4int, 0int,
{
    S::lemma_next_inv(m, i);
    lemma_minimax_bounds::<S>(S::next_of(m, ms[i]), child_depth, !maximizing, player);
}

/// Taking more children into account can only improve the best value: it
/// never decreases for a maximizing node, never increases for a minimizing
/// one.
proof fn lemma_minimax_over_monotone<S: TwoPlayerGameState>(
    m: S::Model,
    ms: Seq<S::MoveModel>,
    k: int,
    n: int,
    child_depth: nat,
    maximizing: bool,
    player: S::Player,
)
    requires
        0 <= k <= n,
    ensures
        maximizing ==> minimax_over::<S>(m, ms, k, child_depth, maximizing, player)
            <= minimax_over::<S>(m, ms, n, child_depth, maximizing, player),
        !maximizing ==> minimax_over::<S>(m, ms, k, child_depth, maximizing, player)
            >= minimax_over::<S>(m, ms, n, child_depth, maximizing, player),
    decreases n - k,
{
    if n > k {
        lemma_minimax_over_monotone::<S>(m, ms, k, n - 1, child_depth, maximizing, player);
    }
}

/// Depth-limited minimax with alpha-beta pruning. Fail-soft: the returned
/// score equals the unpruned minimax value whenever it falls strictly inside
/// the window, bounds it from the proper side otherwise, and with the full
/// window always equals it. A best move is returned exactly at unexhausted
/// depth in a non-terminal state, and with the full window it attains the
/// minimax value.
#[verifier::loop_isolation(false)]
#[verifier::rlimit(100)]
pub fn minimax_alpha_beta<S: TwoPlayerGameState>(
    state: &S,
    depth: u32,
    alpha: i64,
    beta: i64,
    is_maximizing: bool,
    player: &S::Player,
) -> (r: (i64, Option<S::GameMove>))
    requires
        S::inv(state.model()),
        alpha < beta,
    ensures
        ({
            let mv = spec_minimax::<S>(state.model(), depth as nat, is_maximizing, *player);
            let ms = S::moves_of(state.model());
            &&& SCORE_LOSS <= r.0 <= SCORE_WIN
            &&& (alpha < r.0 < beta ==> r.0 == mv)
            &&& (r.0 <= alpha ==> mv <= r.0)
            &&& (r.0 >= beta ==> mv >= r.0)
            &&& (alpha == i64::MIN && beta == i64::MAX ==> r.0 == mv)
            &&& (r.1 is Some <==> (depth > 0 && !S::over_of(state.model())))
            &&& ((depth == 0 || S::over_of(state.model())) ==> r.0 == S::score_of(
                state.model(),
                *player,
            ))
            &&& (match r.1 {
                Some(best) => {
                    &&& (exists|i: int| 0 <= i < ms.len() && ms[i] == S::move_model(best))
                    &&& (alpha < r.0 < beta ==> spec_minimax::<S>(
                        S::next_of(state.model(), S::move_model(best)),
                        (depth - 1) as nat,
                        !is_maximizing,
                        *player,
                    ) == r.0)
                },
                None => true,
            })
        }),
    decreases depth,
{
    proof {
        lemma_minimax_bounds::<S>(state.model(), depth as nat, is_maximizing, *player);
    }
    if depth == 0 || state.is_game_over() {
        let score = state.score_state(player);
        return (score, None);
    }
    proof {
        S::lemma_moves_nonempty(state.model());
    }
    let mut moves = state.get_possible_moves();
    let ghost msspec = S::moves_of(state.model());
    let ghost cd = (depth - 1) as nat;
    let ghost mv = spec_minimax::<S>(state.model(), depth as nat, is_maximizing, *player);
    proof {
        assert(mv == minimax_over::<S>(state.model(), msspec, msspec.len() as int, cd,
            is_maximizing, *player));
    }
    let n = moves.len();
    if is_maximizing {
        let mut a = alpha;
        let mut max_score: i64 = i64::MIN;
        let mut best_idx: usize = 0;
        let mut have_best = false;
        let mut done = false;
        let mut k: usize = 0;
        while k < n && !done
            invariant
                k <= n,
                have_best <==> k > 0,
                !done ==> a == (if max_score > alpha {
                    max_score
                } else {
                    alpha
                }),
                !done ==> a < beta,
                k == 0 ==> max_score == i64::MIN && a == alpha && !done,
                k > 0 ==> SCORE_LOSS <= max_score <= SCORE_WIN && best_idx < k,
                done ==> max_score >= beta,
                k > 0 ==> (max_score <= alpha || max_score <= minimax_over::<S>(
                    state.model(),
                    msspec,
                    k as int,
                    cd,
                    true,
                    *player,
                )),
                k > 0 ==> (max_score >= beta || max_score >= minimax_over::<S>(
                    state.model(),
                    msspec,
                    k as int,
                    cd,
                    true,
                    *player,
                )),
                (k > 0 && alpha < max_score < beta) ==> child_value::<S>(
                    state.model(),
                    msspec,
                    best_idx as int,
                    cd,
                    true,
                    *player,
                ) == max_score,
            decreases n - k,
        {
            proof {
                assert(msspec.contains(S::move_model(moves@[k as int])));
                S::lemma_next_inv(state.model(), k as int);
            }
            let next_state = state.next_state_with_move(&moves[k]);
            let ghost vk = child_value::<S>(state.model(), msspec, k as int, cd, true,
                *player);
            proof {
                assert(next_state.model() == S::next_of(state.model(), msspec[k as int]));
                assert(spec_minimax::<S>(next_state.model(), cd, false, *player) == vk);
                lemma_child_value_bounds::<S>(state.model(), msspec, k as int, cd, true,
                    *player);
            }
            let (score, _) = minimax_alpha_beta::<S>(&next_state, depth - 1, a, beta, false,
                player);
            let ghost old_max = max_score;
            let ghost old_a = a;
            if score > max_score {
                max_score = score;
                best_idx = k;
                have_best = true;
            }
            if max_score > a {
                a = max_score;
            }
            if max_score >= beta {
                done = true;
            }
            proof {
                let over_k = minimax_over::<S>(state.model(), msspec, k as int, cd, true,
                    *player);
                let over_k1 = minimax_over::<S>(state.model(), msspec, k as int + 1, cd,
                    true, *player);
                assert(over_k1 == (if vk > over_k {
                    vk
                } else {
                    over_k
                }));
                if max_score < beta {
                    if score <= old_a {
                        assert(vk <= score);
                    } else {
                        assert(score == vk);
                    }
                    assert(max_score >= vk);
                    if k > 0 {
                        assert(old_max >= over_k);
                    }
                    assert(max_score >= over_k1);
                }
                if max_score > alpha {
                    if score > old_max {
                        if score <= old_a {
                            assert(false);
                        } else if score < beta {
                            assert(max_score == vk);
                        } else {
                            assert(vk >= score);
                        }
                        assert(max_score <= over_k1);
                    } else {
                        if k > 0 {
                            assert(old_max <= alpha || old_max <= over_k);
                        }
                        assert(max_score <= over_k1);
                    }
                }
            }
            k = k + 1;
        }
        proof {
            let over_k = minimax_over::<S>(state.model(), msspec, k as int, cd, true,
                *player);
            lemma_minimax_over_monotone::<S>(state.model(), msspec, k as int,
                msspec.len() as int, cd, true, *player);
            if done {
                assert(max_score >= beta > alpha);
                assert(max_score <= over_k);
                assert(mv >= max_score);
            }
        }
        let best = if have_best {
            Some(moves.swap_remove(best_idx))
        } else {
            None
        };
        (max_score, best)
    } else {
        let mut b = beta;
        let mut min_score: i64 = i64::MAX;
        let mut best_idx: usize = 0;
        let mut have_best = false;
        let mut done = false;
        let mut k: usize = 0;
        while k < n && !done
            invariant
                k <= n,
                have_best <==> k > 0,
                !done ==> b == (if min_score < beta {
                    min_score
                } else {
                    beta
                }),
                !done ==> b > alpha,
                k == 0 ==> min_score == i64::MAX && b == beta && !done,
                k > 0 ==> SCORE_LOSS <= min_score <= SCORE_WIN && best_idx < k,
                done ==> min_score <= alpha,
                k > 0 ==> (min_score >= beta || min_score >= minimax_over::<S>(
                    state.model(),
                    msspec,
                    k as int,
                    cd,
                    false,
                    *player,
                )),
                k > 0 ==> (min_score <= alpha || min_score <= minimax_over::<S>(
                    state.model(),
                    msspec,
                    k as int,
                    cd,
                    false,
                    *player,
                )),
                (k > 0 && alpha < min_score < beta) ==> child_value::<S>(
                    state.model(),
                    msspec,
                    best_idx as int,
                    cd,
                    false,
                    *player,
                ) == min_score,
            decreases n - k,
        {
            proof {
                assert(msspec.contains(S::move_model(moves@[k as int])));
                S::lemma_next_inv(state.model(), k as int);
            }
            let next_state = state.next_state_with_move(&moves[k]);
            let ghost vk = child_value::<S>(state.model(), msspec, k as int, cd, false,
                *player);
            proof {
                assert(next_state.model() == S::next_of(state.model(), msspec[k as int]));
                assert(spec_minimax::<S>(next_state.model(), cd, true, *player) == vk);
                lemma_child_value_bounds::<S>(state.model(), msspec, k as int, cd, false,
                    *player);
            }
            let (score, _) = minimax_alpha_beta::<S>(&next_state, depth - 1, alpha, b, true,
                player);
            let ghost old_min = min_score;
            let ghost old_b = b;
            if score < min_score {
                min_score = score;
                best_idx = k;
                have_best = true;
            }
            if min_score < b {
                b = min_score;
            }
            if min_score <= alpha {
                done = true;
            }
            proof {
                let over_k = minimax_over::<S>(state.model(), msspec, k as int, cd, false,
                    *player);
                let over_k1 = minimax_over::<S>(state.model(), msspec, k as int + 1, cd,
                    false, *player);
                assert(over_k1 == (if vk < over_k {
                    vk
                } else {
                    over_k
                }));
                if min_score > alpha {
                    if score >= old_b {
                        assert(vk >= score);
                    } else {
                        assert(score == vk);
                    }
                    assert(min_score <= vk);
                    if k > 0 {
                        assert(old_min <= over_k);
                    }
                    assert(min_score <= over_k1);
                }
                if min_score < beta {
                    if score < old_min {
                        if score >= old_b {
                            assert(false);
                        } else if score > alpha {
                            assert(min_score == vk);
                        } else {
                            assert(vk <= score);
                        }
                        assert(min_score >= over_k1);
                    } else {
                        if k > 0 {
                            assert(old_min >= beta || old_min >= over_k);
                        }
                        assert(min_score >= over_k1);
                    }
                }
            }
            k = k + 1;
        }
        proof {
            let over_k = minimax_over::<S>(state.model(), msspec, k as int, cd, false,
                *player);
            lemma_minimax_over_monotone::<S>(state.model(), msspec, k as int,
                msspec.len() as int, cd, false, *player);
            if done {
                assert(min_score <= alpha < beta);
                assert(min_score >= over_k);
                assert(mv <= min_score);
            }
        }
        let best = if have_best {
            Some(moves.swap_remove(best_idx))
        } else {
            None
        };
        (min_score, best)
    }
}

} // verus!
