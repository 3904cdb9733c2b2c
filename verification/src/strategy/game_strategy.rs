//! The game-state contract: the capability set any two-player zero-sum
//! game must provide so that the minimax engine can search it.
//!
//! Every conforming game carries a mathematical model of its positions
//! (`Model`) together with spec-level transition functions. The engine's
//! contracts are stated purely over that model, so the engine never needs
//! to look inside a concrete game.

use vstd::prelude::*;

verus! {

/// Outcome of a finished two-player game.
#[derive(Clone, Copy, Debug, PartialEq, Eq, Structural)]
pub enum GameResult {
    Player1Win,
    Player2Win,
    Draw,
}

/// Largest magnitude a static evaluation may have. Keeping evaluations
/// within this bound lets the engine shift scores by the search depth
/// without any risk of overflow.
pub const EVAL_LIMIT: i64 = 1_000_000;

/// The capability set of a searchable game.
///
/// A position is conformant when `inv` holds of its model; the engine only
/// searches conformant positions. The lemmas are the laws the engine
/// relies on: applying a legal move keeps the position conformant, undoing
/// the move just applied restores the position exactly, static evaluations
/// stay within `EVAL_LIMIT`, and the sentinel move is never legal.
pub trait GameStrategy: Sized {
    type Player;

    type Move: Copy;

    type Board: View;

    /// Mathematical model of one position of this game.
    type Model;

    /// The position this value currently stands for.
    spec fn model(&self) -> Self::Model;

    /// Conformance to the game-state contract: only positions satisfying
    /// this may be handed to the engine.
    spec fn inv(m: Self::Model) -> bool;

    /// The legal moves of the position, in generation order. The order is
    /// significant: equal scores tie-break to the last move generated.
    spec fn moves_of(m: Self::Model) -> Seq<Self::Move>;

    /// Whether no further moves are meaningful in the position.
    spec fn complete_of(m: Self::Model) -> bool;

    /// Whether the game is over with no winner.
    spec fn tied_of(m: Self::Model) -> bool;

    /// The winning side, if the position has one.
    spec fn winner_of(m: Self::Model) -> Option<Self::Player>;

    /// Static evaluation of the position; higher favours the maximizer,
    /// and exactly `0` is reserved for drawn or neutral positions.
    spec fn eval_of(m: Self::Model) -> int;

    /// The underlying board representation of the position.
    spec fn board_of(m: Self::Model) -> <Self::Board as View>::V;

    /// The position after `mv` is applied for the given side.
    spec fn play_of(m: Self::Model, mv: Self::Move, maximizer: bool) -> Self::Model;

    /// The position after the most recently applied move `mv` is undone.
    spec fn clear_of(m: Self::Model, mv: Self::Move) -> Self::Model;

    /// The distinguished never-playable move of this game.
    spec fn sentinel_of(m: Self::Model) -> Self::Move;

    /// Whether `mv` is currently legal.
    spec fn valid_of(m: Self::Model, mv: Self::Move) -> bool;

    /// When the legality of `mv` may be queried at all.
    spec fn may_query_valid(m: Self::Model, mv: Self::Move) -> bool;

    /// Law: applying a legal move yields a conformant position again.
    proof fn lemma_play_preserves_inv(m: Self::Model, mv: Self::Move, maximizer: bool)
        requires
            Self::inv(m),
            Self::moves_of(m).contains(mv),
        ensures
            Self::inv(Self::play_of(m, mv, maximizer)),
    ;

    /// Law: undoing the move just applied restores the position exactly.
    proof fn lemma_clear_undoes_play(m: Self::Model, mv: Self::Move, maximizer: bool)
        requires
            Self::inv(m),
            Self::moves_of(m).contains(mv),
        ensures
            Self::clear_of(Self::play_of(m, mv, maximizer), mv) == m,
    ;

    /// Law: static evaluations of conformant positions are bounded.
    proof fn lemma_eval_bounded(m: Self::Model)
        requires
            Self::inv(m),
        ensures
            -EVAL_LIMIT <= Self::eval_of(m) <= EVAL_LIMIT,
    ;

    /// Law: the sentinel move is never a legal move.
    proof fn lemma_sentinel_not_playable(m: Self::Model)
        requires
            Self::inv(m),
        ensures
            !Self::moves_of(m).contains(Self::sentinel_of(m)),
    ;

    /// Statically evaluate the current position.
    fn evaluate(&self) -> (r: i64)
        requires
            Self::inv(self.model()),
        ensures
            r as int == Self::eval_of(self.model()),
    ;

    /// Identify a winner, if one exists.
    fn get_winner(&self) -> (r: Option<Self::Player>)
        requires
            Self::inv(self.model()),
        ensures
            r == Self::winner_of(self.model()),
    ;

    /// Identify whether the game is tied.
    fn is_game_tied(&self) -> (r: bool)
        requires
            Self::inv(self.model()),
        ensures
            r == Self::tied_of(self.model()),
    ;

    /// Identify whether the game is in a completed state.
    fn is_game_complete(&self) -> (r: bool)
        requires
            Self::inv(self.model()),
        ensures
            r == Self::complete_of(self.model()),
    ;

    /// Produce the legal moves of the current position, in generation order.
    fn get_available_moves(&self) -> (r: Vec<Self::Move>)
        requires
            Self::inv(self.model()),
        ensures
            r@ == Self::moves_of(self.model()),
    ;

    /// Modify the game state by playing a given move for the given side.
    /// Callers may only pass moves present in the current legal moves.
    fn play(&mut self, mv: &Self::Move, maximizer: bool)
        requires
            Self::inv(old(self).model()),
            Self::moves_of(old(self).model()).contains(*mv),
        ensures
            final(self).model() == Self::play_of(old(self).model(), *mv, maximizer),
    ;

    /// Modify the game state by undoing the most recently applied move,
    /// which must equal `mv`.
    fn clear(&mut self, mv: &Self::Move)
        requires
            exists|m0: Self::Model, p: bool|
                Self::inv(m0) && Self::moves_of(m0).contains(*mv) && old(self).model()
                    == Self::play_of(m0, *mv, p),
        ensures
            final(self).model() == Self::clear_of(old(self).model(), *mv),
    ;

    /// Read-only view of the underlying board representation.
    fn get_board(&self) -> (r: &Self::Board)
        requires
            Self::inv(self.model()),
        ensures
            r@ == Self::board_of(self.model()),
    ;

    /// Determine whether a given move is currently legal.
    fn is_a_valid_move(&self, mv: &Self::Move) -> (r: bool)
        requires
            Self::inv(self.model()),
            Self::may_query_valid(self.model(), *mv),
        ensures
            r == Self::valid_of(self.model(), *mv),
    ;

    /// Produce the sentinel (never-playable) move of this game.
    fn get_a_sentinel_move(&self) -> (r: Self::Move)
        requires
            Self::inv(self.model()),
        ensures
            r == Self::sentinel_of(self.model()),
    ;
}

/// Applying a legal move and then undoing it leaves the position exactly
/// as it was: in particular the evaluation, the available moves and the
/// completion status are unchanged. The engine relies on this to explore
/// branches in place and backtrack.
pub proof fn lemma_play_then_clear_restores<T: GameStrategy>(
    m: T::Model,
    mv: T::Move,
    maximizer: bool,
)
    requires
        T::inv(m),
        T::moves_of(m).contains(mv),
    ensures
        T::clear_of(T::play_of(m, mv, maximizer), mv) == m,
        T::eval_of(T::clear_of(T::play_of(m, mv, maximizer), mv)) == T::eval_of(m),
        T::moves_of(T::clear_of(T::play_of(m, mv, maximizer), mv)) == T::moves_of(m),
        T::complete_of(T::clear_of(T::play_of(m, mv, maximizer), mv)) == T::complete_of(m),
{
    T::lemma_clear_undoes_play(m, mv, maximizer);
}

} // verus!
