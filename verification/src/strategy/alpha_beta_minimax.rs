//! The search engine: root move selection and recursive scoring with
//! alpha-beta pruning, generic over any game satisfying the game-state
//! contract.
//!
//! The spec functions below mirror the executable search exactly, so the
//! engine's contracts pin down the selected move and score as functions
//! of the position alone, while the engine itself mutates the position in
//! place and is proved to restore it before returning.

use crate::strategy::game_strategy::{GameStrategy, EVAL_LIMIT};
use vstd::prelude::*;

verus! {

/// Score treated as positive infinity: strictly above every score the
/// search can produce.
pub const INF: i64 = 1_000_000_000;

/// Score treated as negative infinity: strictly below every score the
/// search can produce.
pub const NEG_INF: i64 = -1_000_000_000;

/// Largest search depth the engine accepts; keeps every score the search
/// can produce strictly inside `(NEG_INF, INF)`.
pub const DEPTH_LIMIT: i64 = 1_000;

/// One pass of the scoring fold over the moves of `m` from index `i` on:
/// `value` accumulates the max (maximizing) or min (minimizing) of the
/// child scores, the window (`alpha`, `beta`) tightens as children are
/// scored, and the fold stops early once the window closes.
pub open spec fn fold_score<T: GameStrategy>(
    m: T::Model,
    moves: Seq<T::Move>,
    i: int,
    depth: int,
    value: int,
    alpha: int,
    beta: int,
    is_max: bool,
    md: int,
) -> int
    decreases depth, moves.len() - i,
{
    if depth <= 0 || i < 0 || i >= moves.len() {
        value
    } else {
        let sc = ab_score::<T>(
            T::play_of(m, moves[i], is_max),
            depth - 1,
            !is_max,
            alpha,
            beta,
            md,
        );
        if is_max {
            let v2 = if sc > value {
                sc
            } else {
                value
            };
            let a2 = if sc > alpha {
                sc
            } else {
                alpha
            };
            if beta <= a2 {
                v2
            } else {
                fold_score::<T>(m, moves, i + 1, depth, v2, a2, beta, is_max, md)
            }
        } else {
            let v2 = if sc < value {
                sc
            } else {
                value
            };
            let b2 = if sc < beta {
                sc
            } else {
                beta
            };
            if b2 <= alpha {
                v2
            } else {
                fold_score::<T>(m, moves, i + 1, depth, v2, alpha, b2, is_max, md)
            }
        }
    }
}

/// The score the recursive search gives position `m` with `depth` plies
/// left out of `md`, inside the window (`alpha`, `beta`): the static
/// evaluation at leaves, otherwise the folded child scores with the
/// mate-distance adjustment applied to non-drawn values, so that sooner
/// wins score strictly better than later ones.
pub open spec fn ab_score<T: GameStrategy>(
    m: T::Model,
    depth: int,
    is_max: bool,
    alpha: int,
    beta: int,
    md: int,
) -> int
    decreases depth, T::moves_of(m).len() + 1,
{
    if depth <= 0 || T::complete_of(m) || T::moves_of(m).len() == 0 {
        T::eval_of(m)
    } else {
        let folded = fold_score::<T>(
            m,
            T::moves_of(m),
            0,
            depth,
            if is_max {
                NEG_INF as int
            } else {
                INF as int
            },
            alpha,
            beta,
            is_max,
            md,
        );
        if folded != 0 {
            if is_max {
                folded - (md - depth)
            } else {
                folded + (md - depth)
            }
        } else {
            folded
        }
    }
}

/// The root selection fold from index `i` on: each candidate move is
/// scored through a full-width window, and a candidate scoring at least
/// as well as the best so far replaces it, so equal scores tie-break to
/// the last move in generation order.
pub open spec fn best_move_fold<T: GameStrategy>(
    m: T::Model,
    moves: Seq<T::Move>,
    i: int,
    best: T::Move,
    best_val: int,
    is_max: bool,
    md: int,
) -> T::Move
    decreases moves.len() - i,
{
    if i < 0 || i >= moves.len() {
        best
    } else {
        let val = ab_score::<T>(
            T::play_of(m, moves[i], !is_max),
            md,
            is_max,
            NEG_INF as int,
            INF as int,
            md,
        );
        if is_max {
            if val <= best_val {
                best_move_fold::<T>(m, moves, i + 1, moves[i], val, is_max, md)
            } else {
                best_move_fold::<T>(m, moves, i + 1, best, best_val, is_max, md)
            }
        } else {
            if val >= best_val {
                best_move_fold::<T>(m, moves, i + 1, moves[i], val, is_max, md)
            } else {
                best_move_fold::<T>(m, moves, i + 1, best, best_val, is_max, md)
            }
        }
    }
}

/// The move the root selection returns on position `m` searched to `md`
/// plies: the sentinel on a completed position, otherwise the fold over
/// the available moves in generation order.
pub open spec fn best_move_spec<T: GameStrategy>(m: T::Model, md: int, is_max: bool) -> T::Move {
    if T::complete_of(m) {
        T::sentinel_of(m)
    } else {
        best_move_fold::<T>(
            m,
            T::moves_of(m),
            0,
            T::sentinel_of(m),
            if is_max {
                INF as int
            } else {
                NEG_INF as int
            },
            is_max,
            md,
        )
    }
}

/// The unpruned scoring fold: every child is scored, none is skipped.
pub open spec fn plain_fold<T: GameStrategy>(
    m: T::Model,
    moves: Seq<T::Move>,
    i: int,
    depth: int,
    value: int,
    is_max: bool,
    md: int,
) -> int
    decreases depth, moves.len() - i,
{
    if depth <= 0 || i < 0 || i >= moves.len() {
        value
    } else {
        let sc = minimax_plain::<T>(T::play_of(m, moves[i], is_max), depth - 1, !is_max, md);
        let v2 = if is_max {
            if sc > value {
                sc
            } else {
                value
            }
        } else {
            if sc < value {
                sc
            } else {
                value
            }
        };
        plain_fold::<T>(m, moves, i + 1, depth, v2, is_max, md)
    }
}

/// The score of a full-width minimax search without any pruning, with
/// the same mate-distance adjustment as the pruned search.
pub open spec fn minimax_plain<T: GameStrategy>(
    m: T::Model,
    depth: int,
    is_max: bool,
    md: int,
) -> int
    decreases depth, T::moves_of(m).len() + 1,
{
    if depth <= 0 || T::complete_of(m) || T::moves_of(m).len() == 0 {
        T::eval_of(m)
    } else {
        let folded = plain_fold::<T>(
            m,
            T::moves_of(m),
            0,
            depth,
            if is_max {
                NEG_INF as int
            } else {
                INF as int
            },
            is_max,
            md,
        );
        if folded != 0 {
            if is_max {
                folded - (md - depth)
            } else {
                folded + (md - depth)
            }
        } else {
            folded
        }
    }
}

/// The root selection fold of an unpruned search.
pub open spec fn best_move_plain_fold<T: GameStrategy>(
    m: T::Model,
    moves: Seq<T::Move>,
    i: int,
    best: T::Move,
    best_val: int,
    is_max: bool,
    md: int,
) -> T::Move
    decreases moves.len() - i,
{
    if i < 0 || i >= moves.len() {
        best
    } else {
        let val = minimax_plain::<T>(T::play_of(m, moves[i], !is_max), md, is_max, md);
        if is_max {
            if val <= best_val {
                best_move_plain_fold::<T>(m, moves, i + 1, moves[i], val, is_max, md)
            } else {
                best_move_plain_fold::<T>(m, moves, i + 1, best, best_val, is_max, md)
            }
        } else {
            if val >= best_val {
                best_move_plain_fold::<T>(m, moves, i + 1, moves[i], val, is_max, md)
            } else {
                best_move_plain_fold::<T>(m, moves, i + 1, best, best_val, is_max, md)
            }
        }
    }
}

/// The move an unpruned root selection returns.
pub open spec fn best_move_plain<T: GameStrategy>(m: T::Model, md: int, is_max: bool) -> T::Move {
    if T::complete_of(m) {
        T::sentinel_of(m)
    } else {
        best_move_plain_fold::<T>(
            m,
            T::moves_of(m),
            0,
            T::sentinel_of(m),
            if is_max {
                INF as int
            } else {
                NEG_INF as int
            },
            is_max,
            md,
        )
    }
}

proof fn lemma_fold_one_ply<T: GameStrategy>(
    m: T::Model,
    i: int,
    value: int,
    alpha: int,
    beta: int,
    is_max: bool,
    md: int,
)
    requires
        T::inv(m),
        0 <= i,
        is_max ==> beta == INF as int && alpha < INF as int,
        !is_max ==> alpha == NEG_INF as int && beta > NEG_INF as int,
    ensures
        fold_score::<T>(m, T::moves_of(m), i, 1, value, alpha, beta, is_max, md)
            == plain_fold::<T>(m, T::moves_of(m), i, 1, value, is_max, md),
    decreases T::moves_of(m).len() - i,
{
    let moves = T::moves_of(m);
    if i < moves.len() {
        assert(moves.contains(moves[i]));
        T::lemma_play_preserves_inv(m, moves[i], is_max);
        let child = T::play_of(m, moves[i], is_max);
        T::lemma_eval_bounded(child);
        let sc = ab_score::<T>(child, 0, !is_max, alpha, beta, md);
        assert(sc == T::eval_of(child));
        assert(minimax_plain::<T>(child, 0, !is_max, md) == T::eval_of(child));
        if is_max {
            let v2 = if sc > value {
                sc
            } else {
                value
            };
            let a2 = if sc > alpha {
                sc
            } else {
                alpha
            };
            assert(a2 < INF as int);
            lemma_fold_one_ply::<T>(m, i + 1, v2, a2, beta, is_max, md);
        } else {
            let v2 = if sc < value {
                sc
            } else {
                value
            };
            let b2 = if sc < beta {
                sc
            } else {
                beta
            };
            assert(b2 > NEG_INF as int);
            lemma_fold_one_ply::<T>(m, i + 1, v2, alpha, b2, is_max, md);
        }
    }
}

/// At search depths where the pruning window can never close - through a
/// full window and at most one ply of search - the pruned and the
/// unpruned searches give every position the same score, so there the
/// cutoff is a traversal optimization only. At greater depths the
/// mate-distance adjustment can interact with the window and the two
/// searches may disagree.
pub proof fn lemma_shallow_search_unpruned<T: GameStrategy>(
    m: T::Model,
    depth: int,
    is_max: bool,
    md: int,
)
    requires
        T::inv(m),
        depth <= 1,
    ensures
        ab_score::<T>(m, depth, is_max, NEG_INF as int, INF as int, md) == minimax_plain::<T>(
            m,
            depth,
            is_max,
            md,
        ),
{
    if depth == 1 && !T::complete_of(m) && T::moves_of(m).len() > 0 {
        lemma_fold_one_ply::<T>(
            m,
            0,
            if is_max {
                NEG_INF as int
            } else {
                INF as int
            },
            NEG_INF as int,
            INF as int,
            is_max,
            md,
        );
    }
}

proof fn lemma_best_fold_shallow<T: GameStrategy>(
    m: T::Model,
    i: int,
    best: T::Move,
    best_val: int,
    is_max: bool,
    md: int,
)
    requires
        T::inv(m),
        0 <= i,
        0 <= md <= 1,
    ensures
        best_move_fold::<T>(m, T::moves_of(m), i, best, best_val, is_max, md)
            == best_move_plain_fold::<T>(m, T::moves_of(m), i, best, best_val, is_max, md),
    decreases T::moves_of(m).len() - i,
{
    let moves = T::moves_of(m);
    if i < moves.len() {
        assert(moves.contains(moves[i]));
        T::lemma_play_preserves_inv(m, moves[i], !is_max);
        let child = T::play_of(m, moves[i], !is_max);
        lemma_shallow_search_unpruned::<T>(child, md, is_max, md);
        let val = ab_score::<T>(child, md, is_max, NEG_INF as int, INF as int, md);
        lemma_best_fold_shallow::<T>(m, i + 1, moves[i], val, is_max, md);
        lemma_best_fold_shallow::<T>(m, i + 1, best, best_val, is_max, md);
    }
}

/// With a full window and at most one ply of search, the pruned and the
/// unpruned root selections choose the same move.
pub proof fn lemma_shallow_selection_unpruned<T: GameStrategy>(m: T::Model, md: int, is_max: bool)
    requires
        T::inv(m),
        0 <= md <= 1,
    ensures
        best_move_spec::<T>(m, md, is_max) == best_move_plain::<T>(m, md, is_max),
{
    if !T::complete_of(m) {
        lemma_best_fold_shallow::<T>(
            m,
            0,
            T::sentinel_of(m),
            if is_max {
                INF as int
            } else {
                NEG_INF as int
            },
            is_max,
            md,
        );
    }
}

/// The score the root selection gives one candidate move: the move is
/// applied for the side opposite the scoring perspective and the result
/// is scored through a full window.
pub open spec fn root_score<T: GameStrategy>(
    m: T::Model,
    mv: T::Move,
    is_max: bool,
    md: int,
) -> int {
    ab_score::<T>(T::play_of(m, mv, !is_max), md, is_max, NEG_INF as int, INF as int, md)
}

/// The best score the root selection fold tracks from index `i` on.
pub open spec fn best_score_fold<T: GameStrategy>(
    m: T::Model,
    moves: Seq<T::Move>,
    i: int,
    best_val: int,
    is_max: bool,
    md: int,
) -> int
    decreases moves.len() - i,
{
    if i < 0 || i >= moves.len() {
        best_val
    } else {
        let val = ab_score::<T>(
            T::play_of(m, moves[i], !is_max),
            md,
            is_max,
            NEG_INF as int,
            INF as int,
            md,
        );
        if is_max {
            if val <= best_val {
                best_score_fold::<T>(m, moves, i + 1, val, is_max, md)
            } else {
                best_score_fold::<T>(m, moves, i + 1, best_val, is_max, md)
            }
        } else {
            if val >= best_val {
                best_score_fold::<T>(m, moves, i + 1, val, is_max, md)
            } else {
                best_score_fold::<T>(m, moves, i + 1, best_val, is_max, md)
            }
        }
    }
}

proof fn lemma_selection_fold_dominates<T: GameStrategy>(
    m: T::Model,
    i: int,
    best: T::Move,
    best_val: int,
    is_max: bool,
    md: int,
)
    requires
        0 <= i,
    ensures
        ({
            let moves = T::moves_of(m);
            let r = best_move_fold::<T>(m, moves, i, best, best_val, is_max, md);
            let rv = best_score_fold::<T>(m, moves, i, best_val, is_max, md);
            &&& (is_max ==> rv <= best_val)
            &&& (!is_max ==> rv >= best_val)
            &&& (is_max ==> forall|j: int|
                i <= j < moves.len() ==> rv <= #[trigger] root_score::<T>(m, moves[j], is_max, md))
            &&& (!is_max ==> forall|j: int|
                i <= j < moves.len() ==> rv >= #[trigger] root_score::<T>(m, moves[j], is_max, md))
            &&& ((r == best && rv == best_val) || (moves.contains(r) && rv == root_score::<T>(
                m,
                r,
                is_max,
                md,
            )))
        }),
    decreases T::moves_of(m).len() - i,
{
    let moves = T::moves_of(m);
    if i < moves.len() {
        let val = ab_score::<T>(
            T::play_of(m, moves[i], !is_max),
            md,
            is_max,
            NEG_INF as int,
            INF as int,
            md,
        );
        assert(val == root_score::<T>(m, moves[i], is_max, md));
        assert(moves.contains(moves[i]));
        if is_max {
            if val <= best_val {
                lemma_selection_fold_dominates::<T>(m, i + 1, moves[i], val, is_max, md);
            } else {
                lemma_selection_fold_dominates::<T>(m, i + 1, best, best_val, is_max, md);
            }
        } else {
            if val >= best_val {
                lemma_selection_fold_dominates::<T>(m, i + 1, moves[i], val, is_max, md);
            } else {
                lemma_selection_fold_dominates::<T>(m, i + 1, best, best_val, is_max, md);
            }
        }
    }
}

/// A candidate move that completes the game at once is scored by the
/// static evaluation of the completed position alone: the mate-distance
/// adjustment never discounts an immediate outcome.
pub proof fn lemma_immediate_outcome_score<T: GameStrategy>(
    m: T::Model,
    mv: T::Move,
    is_max: bool,
    md: int,
)
    requires
        T::complete_of(T::play_of(m, mv, !is_max)),
    ensures
        root_score::<T>(m, mv, is_max, md) == T::eval_of(T::play_of(m, mv, !is_max)),
{
}

/// Preference for immediate outcomes: when some available move completes
/// the game at once, the move the root selection returns scores at least
/// as well as that immediate outcome's evaluation - at least as high
/// when selecting for the maximizer, at least as low when selecting for
/// the minimizer. Since any win reached only through further moves is
/// scored strictly closer to zero by the mate-distance adjustment, an
/// immediate win with the extremal evaluation can only be matched by
/// another immediate win.
pub proof fn lemma_immediate_outcome_bounds_selection<T: GameStrategy>(
    m: T::Model,
    mv: T::Move,
    is_max: bool,
    md: int,
)
    requires
        T::inv(m),
        !T::complete_of(m),
        T::moves_of(m).contains(mv),
        T::complete_of(T::play_of(m, mv, !is_max)),
    ensures
        T::moves_of(m).contains(best_move_spec::<T>(m, md, is_max)),
        !is_max ==> root_score::<T>(m, best_move_spec::<T>(m, md, is_max), is_max, md)
            >= T::eval_of(T::play_of(m, mv, !is_max)),
        is_max ==> root_score::<T>(m, best_move_spec::<T>(m, md, is_max), is_max, md)
            <= T::eval_of(T::play_of(m, mv, !is_max)),
{
    let moves = T::moves_of(m);
    let init: int = if is_max {
        INF as int
    } else {
        NEG_INF as int
    };
    lemma_selection_fold_dominates::<T>(m, 0, T::sentinel_of(m), init, is_max, md);
    lemma_immediate_outcome_score::<T>(m, mv, is_max, md);
    T::lemma_play_preserves_inv(m, mv, !is_max);
    T::lemma_eval_bounded(T::play_of(m, mv, !is_max));
    let j = choose|j: int| 0 <= j < moves.len() && moves[j] == mv;
    assert(root_score::<T>(m, moves[j], is_max, md) == root_score::<T>(m, mv, is_max, md));
    let r = best_move_fold::<T>(m, moves, 0, T::sentinel_of(m), init, is_max, md);
    let rv = best_score_fold::<T>(m, moves, 0, init, is_max, md);
    if r == T::sentinel_of(m) && rv == init {
        // the fold can never keep the initial score: the immediate
        // outcome's bounded evaluation already beats it
        assert(false);
    }
}


/// The minimizing fold never rises above its accumulator: each child
/// score is folded in by taking a minimum.
pub proof fn lemma_min_fold_below_value<T: GameStrategy>(
    m: T::Model,
    moves: Seq<T::Move>,
    i: int,
    depth: int,
    value: int,
    alpha: int,
    beta: int,
    md: int,
)
    ensures
        fold_score::<T>(m, moves, i, depth, value, alpha, beta, false, md) <= value,
    decreases moves.len() - i,
{
    if depth > 0 && 0 <= i < moves.len() {
        let sc = ab_score::<T>(T::play_of(m, moves[i], false), depth - 1, true, alpha, beta, md);
        let v2 = if sc < value {
            sc
        } else {
            value
        };
        let b2 = if sc < beta {
            sc
        } else {
            beta
        };
        if b2 <= alpha {
        } else {
            lemma_min_fold_below_value::<T>(m, moves, i + 1, depth, v2, alpha, b2, md);
        }
    }
}

/// The behaviour required of any minimax game engine.
pub trait AlphaBetaMiniMaxStrategy: GameStrategy {
    /// The ability to get the best move in the current state and for the
    /// current player. The state is explored in place and restored; on a
    /// completed position the sentinel move comes back at once, otherwise
    /// the selected move is one of the available moves whenever any exist.
    /// The result is a function of the position and the parameters alone,
    /// so two calls on the same unmodified state return the same move.
    fn get_best_move(&mut self, max_depth: i64, is_maximizing: bool) -> (best: <Self as GameStrategy>::Move)
        requires
            Self::inv(old(self).model()),
            0 <= max_depth <= DEPTH_LIMIT,
        ensures
            final(self).model() == old(self).model(),
            best == best_move_spec::<Self>(old(self).model(), max_depth as int, is_maximizing),
            Self::complete_of(old(self).model()) ==> best == Self::sentinel_of(old(self).model()),
            !Self::complete_of(old(self).model()) && Self::moves_of(old(self).model()).len() > 0
                ==> Self::moves_of(old(self).model()).contains(best) && best != Self::sentinel_of(
                    old(self).model(),
                ),
    ;

    /// The ability to produce an evaluation score over all possible moves
    /// at the current game state, exploring in place and restoring the
    /// state before returning.
    fn minimax_score(
        &mut self,
        depth: i64,
        is_maximizing: bool,
        alpha: i64,
        beta: i64,
        max_depth: i64,
    ) -> (score: i64)
        requires
            Self::inv(old(self).model()),
            0 <= depth <= max_depth <= DEPTH_LIMIT,
        ensures
            final(self).model() == old(self).model(),
            score as int == ab_score::<Self>(
                old(self).model(),
                depth as int,
                is_maximizing,
                alpha as int,
                beta as int,
                max_depth as int,
            ),
            -(EVAL_LIMIT + depth * DEPTH_LIMIT) <= score as int <= EVAL_LIMIT + depth
                * DEPTH_LIMIT,
    ;
}

/// Endow upon anything the ability to use the engine as long as it
/// satisfies the game-state contract.
impl<T: GameStrategy> AlphaBetaMiniMaxStrategy for T {
    fn get_best_move(&mut self, max_depth: i64, is_maximizing: bool) -> (best: <Self as GameStrategy>::Move) {
        let ghost m0 = self.model();
        let mut best_move: <Self as GameStrategy>::Move = self.get_a_sentinel_move();

        if self.is_game_complete() {
            return best_move;
        }
        let alpha = NEG_INF;
        let beta = INF;

        if is_maximizing {
            let mut best_move_val: i64 = INF;
            let moves = self.get_available_moves();
            let mut i: usize = 0;
            while i < moves.len()
                invariant
                    is_maximizing,
                    T::inv(m0),
                    self.model() == m0,
                    !T::complete_of(m0),
                    moves@ == T::moves_of(m0),
                    0 <= max_depth <= DEPTH_LIMIT,
                    alpha == NEG_INF,
                    beta == INF,
                    i <= moves.len(),
                    i == 0 ==> best_move_val == INF,
                    i > 0 ==> moves@.contains(best_move),
                    best_move_fold::<T>(
                        m0,
                        moves@,
                        0,
                        T::sentinel_of(m0),
                        INF as int,
                        true,
                        max_depth as int,
                    ) == best_move_fold::<T>(
                        m0,
                        moves@,
                        i as int,
                        best_move,
                        best_move_val as int,
                        true,
                        max_depth as int,
                    ),
                decreases moves.len() - i,
            {
                let ghost ipre = i as int;
                let ghost bpre = best_move;
                let ghost vpre = best_move_val as int;
                let mv = moves[i];
                proof {
                    assert(T::moves_of(m0)[ipre] == mv);
                    assert(T::moves_of(m0).contains(mv));
                    T::lemma_play_preserves_inv(m0, mv, !is_maximizing);
                }
                self.play(&mv, !is_maximizing);
                let value = self.minimax_score(max_depth, is_maximizing, alpha, beta, max_depth);
                proof {
                    assert(T::inv(m0) && T::moves_of(m0).contains(mv) && self.model()
                        == T::play_of(m0, mv, !is_maximizing));
                    T::lemma_clear_undoes_play(m0, mv, !is_maximizing);
                }
                self.clear(&mv);
                if value <= best_move_val {
                    best_move_val = value;
                    best_move = mv;
                }
                i += 1;
                proof {
                    assert(best_move_fold::<T>(
                        m0,
                        moves@,
                        ipre,
                        bpre,
                        vpre,
                        true,
                        max_depth as int,
                    ) == best_move_fold::<T>(
                        m0,
                        moves@,
                        ipre + 1,
                        best_move,
                        best_move_val as int,
                        true,
                        max_depth as int,
                    ));
                }
            }
            proof {
                T::lemma_sentinel_not_playable(m0);
            }
            best_move
        } else {
            let mut best_move_val: i64 = NEG_INF;
            let moves = self.get_available_moves();
            let mut i: usize = 0;
            while i < moves.len()
                invariant
                    !is_maximizing,
                    T::inv(m0),
                    self.model() == m0,
                    !T::complete_of(m0),
                    moves@ == T::moves_of(m0),
                    0 <= max_depth <= DEPTH_LIMIT,
                    alpha == NEG_INF,
                    beta == INF,
                    i <= moves.len(),
                    i == 0 ==> best_move_val == NEG_INF,
                    i > 0 ==> moves@.contains(best_move),
                    best_move_fold::<T>(
                        m0,
                        moves@,
                        0,
                        T::sentinel_of(m0),
                        NEG_INF as int,
                        false,
                        max_depth as int,
                    ) == best_move_fold::<T>(
                        m0,
                        moves@,
                        i as int,
                        best_move,
                        best_move_val as int,
                        false,
                        max_depth as int,
                    ),
                decreases moves.len() - i,
            {
                let ghost ipre = i as int;
                let ghost bpre = best_move;
                let ghost vpre = best_move_val as int;
                let mv = moves[i];
                proof {
                    assert(T::moves_of(m0)[ipre] == mv);
                    assert(T::moves_of(m0).contains(mv));
                    T::lemma_play_preserves_inv(m0, mv, !is_maximizing);
                }
                self.play(&mv, !is_maximizing);
                let value = self.minimax_score(max_depth, is_maximizing, alpha, beta, max_depth);
                proof {
                    assert(T::inv(m0) && T::moves_of(m0).contains(mv) && self.model()
                        == T::play_of(m0, mv, !is_maximizing));
                    T::lemma_clear_undoes_play(m0, mv, !is_maximizing);
                }
                self.clear(&mv);
                if value >= best_move_val {
                    best_move_val = value;
                    best_move = mv;
                }
                i += 1;
                proof {
                    assert(best_move_fold::<T>(
                        m0,
                        moves@,
                        ipre,
                        bpre,
                        vpre,
                        false,
                        max_depth as int,
                    ) == best_move_fold::<T>(
                        m0,
                        moves@,
                        ipre + 1,
                        best_move,
                        best_move_val as int,
                        false,
                        max_depth as int,
                    ));
                }
            }
            proof {
                T::lemma_sentinel_not_playable(m0);
            }
            best_move
        }
    }

    fn minimax_score(
        &mut self,
        depth: i64,
        is_maximizing: bool,
        alpha: i64,
        beta: i64,
        max_depth: i64,
    ) -> (score: i64)
        decreases depth,
    {
        let ghost m0 = self.model();
        let avail = self.get_available_moves();
        if depth == 0 || self.is_game_complete() || avail.len() == 0 {
            proof {
                T::lemma_eval_bounded(m0);
            }
            let e = self.evaluate();
            return e;
        }
        let ghost md = max_depth as int;
        let ghost cb = EVAL_LIMIT + (depth - 1) * DEPTH_LIMIT;

        if is_maximizing {
            let mut value: i64 = NEG_INF;
            let ghost a0 = alpha as int;
            let mut alpha = alpha;
            let mut done = false;
            let mut i: usize = 0;
            while !done && i < avail.len()
                invariant
                    is_maximizing,
                    T::inv(m0),
                    self.model() == m0,
                    avail@ == T::moves_of(m0),
                    avail@.len() > 0,
                    1 <= depth <= max_depth <= DEPTH_LIMIT,
                    md == max_depth as int,
                    cb == EVAL_LIMIT + (depth - 1) * DEPTH_LIMIT,
                    i <= avail.len(),
                    i == 0 && !done ==> value == NEG_INF && alpha == a0,
                    i > 0 || done ==> -cb <= value as int <= cb,
                    !done ==> fold_score::<T>(
                        m0,
                        avail@,
                        0,
                        depth as int,
                        NEG_INF as int,
                        a0,
                        beta as int,
                        true,
                        md,
                    ) == fold_score::<T>(
                        m0,
                        avail@,
                        i as int,
                        depth as int,
                        value as int,
                        alpha as int,
                        beta as int,
                        true,
                        md,
                    ),
                    done ==> fold_score::<T>(
                        m0,
                        avail@,
                        0,
                        depth as int,
                        NEG_INF as int,
                        a0,
                        beta as int,
                        true,
                        md,
                    ) == value as int,
                decreases (if done { 0int } else { 1int }), avail.len() - i,
            {
                let ghost ipre = i as int;
                let ghost vpre = value as int;
                let ghost apre = alpha as int;
                let mv = avail[i];
                proof {
                    assert(T::moves_of(m0)[ipre] == mv);
                    assert(T::moves_of(m0).contains(mv));
                    T::lemma_play_preserves_inv(m0, mv, true);
                }
                self.play(&mv, true);
                let score = self.minimax_score(depth - 1, false, alpha, beta, max_depth);
                if score > value {
                    value = score;
                }
                if score > alpha {
                    alpha = score;
                }
                proof {
                    assert(T::inv(m0) && T::moves_of(m0).contains(mv) && self.model()
                        == T::play_of(m0, mv, true));
                    T::lemma_clear_undoes_play(m0, mv, true);
                }
                self.clear(&mv);
                if beta <= alpha {
                    done = true;
                } else {
                    i += 1;
                }
                proof {
                    let sc = score as int;
                    assert(sc == ab_score::<T>(
                        T::play_of(m0, avail@[ipre], true),
                        depth as int - 1,
                        false,
                        apre,
                        beta as int,
                        md,
                    ));
                    assert(fold_score::<T>(
                        m0,
                        avail@,
                        ipre,
                        depth as int,
                        vpre,
                        apre,
                        beta as int,
                        true,
                        md,
                    ) == (if beta as int <= alpha as int {
                        value as int
                    } else {
                        fold_score::<T>(
                            m0,
                            avail@,
                            ipre + 1,
                            depth as int,
                            value as int,
                            alpha as int,
                            beta as int,
                            true,
                            md,
                        )
                    }));
                }
            }
            if value != 0 {
                return value - (max_depth - depth);
            }
            value
        } else {
            let mut value: i64 = INF;
            let ghost b0 = beta as int;
            let mut beta = beta;
            let mut done = false;
            let mut i: usize = 0;
            while !done && i < avail.len()
                invariant
                    !is_maximizing,
                    T::inv(m0),
                    self.model() == m0,
                    avail@ == T::moves_of(m0),
                    avail@.len() > 0,
                    1 <= depth <= max_depth <= DEPTH_LIMIT,
                    md == max_depth as int,
                    cb == EVAL_LIMIT + (depth - 1) * DEPTH_LIMIT,
                    i <= avail.len(),
                    i == 0 && !done ==> value == INF && beta == b0,
                    i > 0 || done ==> -cb <= value as int <= cb,
                    !done ==> fold_score::<T>(
                        m0,
                        avail@,
                        0,
                        depth as int,
                        INF as int,
                        alpha as int,
                        b0,
                        false,
                        md,
                    ) == fold_score::<T>(
                        m0,
                        avail@,
                        i as int,
                        depth as int,
                        value as int,
                        alpha as int,
                        beta as int,
                        false,
                        md,
                    ),
                    done ==> fold_score::<T>(
                        m0,
                        avail@,
                        0,
                        depth as int,
                        INF as int,
                        alpha as int,
                        b0,
                        false,
                        md,
                    ) == value as int,
                decreases (if done { 0int } else { 1int }), avail.len() - i,
            {
                let ghost ipre = i as int;
                let ghost vpre = value as int;
                let ghost bpre = beta as int;
                let mv = avail[i];
                proof {
                    assert(T::moves_of(m0)[ipre] == mv);
                    assert(T::moves_of(m0).contains(mv));
                    T::lemma_play_preserves_inv(m0, mv, false);
                }
                self.play(&mv, false);
                let score = self.minimax_score(depth - 1, true, alpha, beta, max_depth);
                if score < value {
                    value = score;
                }
                if score < beta {
                    beta = score;
                }
                proof {
                    assert(T::inv(m0) && T::moves_of(m0).contains(mv) && self.model()
                        == T::play_of(m0, mv, false));
                    T::lemma_clear_undoes_play(m0, mv, false);
                }
                self.clear(&mv);
                if beta <= alpha {
                    done = true;
                } else {
                    i += 1;
                }
                proof {
                    let sc = score as int;
                    assert(sc == ab_score::<T>(
                        T::play_of(m0, avail@[ipre], false),
                        depth as int - 1,
                        true,
                        alpha as int,
                        bpre,
                        md,
                    ));
                    assert(fold_score::<T>(
                        m0,
                        avail@,
                        ipre,
                        depth as int,
                        vpre,
                        alpha as int,
                        bpre,
                        false,
                        md,
                    ) == (if beta as int <= alpha as int {
                        value as int
                    } else {
                        fold_score::<T>(
                            m0,
                            avail@,
                            ipre + 1,
                            depth as int,
                            value as int,
                            alpha as int,
                            beta as int,
                            false,
                            md,
                        )
                    }));
                }
            }
            if value != 0 {
                return value + (max_depth - depth);
            }
            value
        }
    }
}

} // verus!
