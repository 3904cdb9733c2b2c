//! A grid tic-tac-toe game of any width, conforming to the game-state
//! contract so that the minimax engine can search it.

use crate::strategy::alpha_beta_minimax::{
    ab_score, best_move_spec, fold_score, lemma_immediate_outcome_bounds_selection,
    lemma_min_fold_below_value, root_score, DEPTH_LIMIT, INF, NEG_INF,
};
use crate::strategy::game_strategy::GameStrategy;
use vstd::prelude::*;

verus! {

/// A square tic-tac-toe board. A move is an index into `board`, in
/// `[0, size * size)`; a cell holds `'-'` while free, and a player's
/// character once played.
#[derive(Debug, Clone)]
pub struct TicTacToe {
    pub board: Vec<char>,
    pub size: usize,
    pub default_char: char,
    pub maximizer: char,
    pub minimizer: char,
}

/// Mathematical model of a tic-tac-toe position.
#[verifier::ext_equal]
pub struct TicTacToeModel {
    pub board: Seq<char>,
    pub size: nat,
    pub default_char: char,
    pub maximizer: char,
    pub minimizer: char,
}

/// The free cells among the first `n` cells of `b`, in ascending order.
pub open spec fn free_cells_below(b: Seq<char>, n: int) -> Seq<usize>
    decreases n,
{
    if n <= 0 {
        Seq::empty()
    } else {
        free_cells_below(b, n - 1) + if b[n - 1] == '-' {
            seq![(n - 1) as usize]
        } else {
            Seq::empty()
        }
    }
}

/// Which cells `free_cells_below` holds: exactly the indices below `n`
/// whose cell is free.
pub proof fn lemma_free_cells_below(b: Seq<char>, n: int)
    requires
        0 <= n <= b.len(),
        n <= usize::MAX,
    ensures
        forall|mv: usize| #![trigger free_cells_below(b, n).contains(mv)]
            free_cells_below(b, n).contains(mv) <==> (mv < n && b[mv as int] == '-'),
    decreases n,
{
    if n > 0 {
        lemma_free_cells_below(b, n - 1);
        assert forall|mv: usize| #![trigger free_cells_below(b, n).contains(mv)]
            free_cells_below(b, n).contains(mv) implies (mv < n && b[mv as int] == '-') by {
            let s = free_cells_below(b, n);
            let s1 = free_cells_below(b, n - 1);
            let j = choose|j: int| 0 <= j < s.len() && s[j] == mv;
            if j < s1.len() {
                assert(s1[j] == mv);
                assert(s1.contains(mv));
            } else {
                assert(b[n - 1] == '-');
                assert(mv == (n - 1) as usize);
            }
        }
        assert forall|mv: usize| #![trigger free_cells_below(b, n).contains(mv)]
            mv < n && b[mv as int] == '-' implies free_cells_below(b, n).contains(mv) by {
            if mv < n - 1 {
                assert(free_cells_below(b, n - 1).contains(mv));
                let s1 = free_cells_below(b, n - 1);
                let j = choose|j: int| 0 <= j < s1.len() && s1[j] == mv;
                assert(free_cells_below(b, n)[j] == mv);
            } else {
                assert(free_cells_below(b, n).last() == mv);
            }
        }
    }
}

/// The cell of the grid at the given row and column.
pub open spec fn cell(m: TicTacToeModel, row: int, col: int) -> char {
    m.board[m.size * row + col]
}

/// The cell of the main diagonal in the given row.
pub open spec fn main_diagonal_cell(m: TicTacToeModel, i: int) -> char {
    m.board[m.size * i + i]
}

/// The cell of the anti-diagonal in the given row.
pub open spec fn anti_diagonal_cell(m: TicTacToeModel, i: int) -> char {
    m.board[m.size * (m.size - 1 - i) + i]
}

/// Whether `ch` fills the whole given row.
pub open spec fn row_won(m: TicTacToeModel, ch: char, row: int) -> bool {
    forall|c: int| 0 <= c < m.size ==> cell(m, row, c) == ch
}

/// Whether `ch` fills the whole given column.
pub open spec fn col_won(m: TicTacToeModel, ch: char, col: int) -> bool {
    forall|r: int| 0 <= r < m.size ==> cell(m, r, col) == ch
}

/// Whether `ch` fills the main diagonal (`diag` true) or the
/// anti-diagonal (`diag` false).
pub open spec fn diagonal_won(m: TicTacToeModel, ch: char, diag: bool) -> bool {
    if diag {
        forall|i: int| 0 <= i < m.size ==> main_diagonal_cell(m, i) == ch
    } else {
        forall|i: int| 0 <= i < m.size ==> anti_diagonal_cell(m, i) == ch
    }
}

/// The character the diagonal check reports: the maximizer if either
/// diagonal is theirs, else the minimizer if either diagonal is theirs,
/// else the free-cell character.
pub open spec fn diagonals_winner(m: TicTacToeModel) -> char {
    if diagonal_won(m, m.maximizer, true) || diagonal_won(m, m.maximizer, false) {
        m.maximizer
    } else if diagonal_won(m, m.minimizer, true) || diagonal_won(m, m.minimizer, false) {
        m.minimizer
    } else {
        m.default_char
    }
}

/// The character the row check reports when scanning rows upward from
/// `row`: at the first row fully owned by a player, that player (the
/// maximizer checked first), else the free-cell character.
pub open spec fn rows_winner_from(m: TicTacToeModel, row: int) -> char
    decreases m.size - row,
{
    if row < 0 || row >= m.size {
        m.default_char
    } else if row_won(m, m.maximizer, row) {
        m.maximizer
    } else if row_won(m, m.minimizer, row) {
        m.minimizer
    } else {
        rows_winner_from(m, row + 1)
    }
}

/// The character the column check reports, scanning columns upward.
pub open spec fn cols_winner_from(m: TicTacToeModel, col: int) -> char
    decreases m.size - col,
{
    if col < 0 || col >= m.size {
        m.default_char
    } else if col_won(m, m.maximizer, col) {
        m.maximizer
    } else if col_won(m, m.minimizer, col) {
        m.minimizer
    } else {
        cols_winner_from(m, col + 1)
    }
}

/// The winner the game reports: diagonals first, then rows, then columns,
/// with the free-cell character meaning that nobody has won.
pub open spec fn winner_char(m: TicTacToeModel) -> char {
    if diagonals_winner(m) != m.default_char {
        diagonals_winner(m)
    } else if rows_winner_from(m, 0) != m.default_char {
        rows_winner_from(m, 0)
    } else {
        cols_winner_from(m, 0)
    }
}


/// Both players' characters are real marks: distinct from each other and
/// from the free-cell character.
pub open spec fn players_distinct(m: TicTacToeModel) -> bool {
    m.maximizer != m.default_char && m.minimizer != m.default_char && m.maximizer != m.minimizer
}

/// Whether some row is fully owned by `ch`.
pub open spec fn has_winning_row(m: TicTacToeModel, ch: char) -> bool {
    exists|r: int| 0 <= r < m.size && row_won(m, ch, r)
}

/// Whether some column is fully owned by `ch`.
pub open spec fn has_winning_col(m: TicTacToeModel, ch: char) -> bool {
    exists|c: int| 0 <= c < m.size && col_won(m, ch, c)
}

proof fn lemma_rows_winner_not_default(m: TicTacToeModel, r0: int, r: int, ch: char)
    requires
        ch == m.maximizer || ch == m.minimizer,
        m.maximizer != m.default_char,
        m.minimizer != m.default_char,
        0 <= r0 <= r < m.size,
        row_won(m, ch, r),
    ensures
        rows_winner_from(m, r0) != m.default_char,
    decreases r - r0,
{
    if !row_won(m, m.maximizer, r0) && !row_won(m, m.minimizer, r0) {
        lemma_rows_winner_not_default(m, r0 + 1, r, ch);
    }
}

proof fn lemma_cols_winner_not_default(m: TicTacToeModel, c0: int, c: int, ch: char)
    requires
        ch == m.maximizer || ch == m.minimizer,
        m.maximizer != m.default_char,
        m.minimizer != m.default_char,
        0 <= c0 <= c < m.size,
        col_won(m, ch, c),
    ensures
        cols_winner_from(m, c0) != m.default_char,
    decreases c - c0,
{
    if !col_won(m, m.maximizer, c0) && !col_won(m, m.minimizer, c0) {
        lemma_cols_winner_not_default(m, c0 + 1, c, ch);
    }
}

proof fn lemma_rows_winner_found(m: TicTacToeModel, r0: int)
    requires
        0 <= r0,
        rows_winner_from(m, r0) != m.default_char,
    ensures
        has_winning_row(m, rows_winner_from(m, r0)),
    decreases m.size - r0,
{
    if r0 < m.size {
        if row_won(m, m.maximizer, r0) || row_won(m, m.minimizer, r0) {
        } else {
            lemma_rows_winner_found(m, r0 + 1);
        }
    }
}

proof fn lemma_cols_winner_found(m: TicTacToeModel, c0: int)
    requires
        0 <= c0,
        cols_winner_from(m, c0) != m.default_char,
    ensures
        has_winning_col(m, cols_winner_from(m, c0)),
    decreases m.size - c0,
{
    if c0 < m.size {
        if col_won(m, m.maximizer, c0) || col_won(m, m.minimizer, c0) {
        } else {
            lemma_cols_winner_found(m, c0 + 1);
        }
    }
}

proof fn lemma_no_winner_no_max_lines(m: TicTacToeModel)
    requires
        winner_char(m) == m.default_char,
        m.maximizer != m.default_char,
        m.minimizer != m.default_char,
    ensures
        !has_winning_row(m, m.maximizer),
        !has_winning_col(m, m.maximizer),
        !diagonal_won(m, m.maximizer, true),
        !diagonal_won(m, m.maximizer, false),
{
    if has_winning_row(m, m.maximizer) {
        let r = choose|r: int| 0 <= r < m.size && row_won(m, m.maximizer, r);
        lemma_rows_winner_not_default(m, 0, r, m.maximizer);
    }
    if has_winning_col(m, m.maximizer) {
        let c = choose|c: int| 0 <= c < m.size && col_won(m, m.maximizer, c);
        lemma_cols_winner_not_default(m, 0, c, m.maximizer);
    }
}

proof fn lemma_winner_has_line(m: TicTacToeModel)
    requires
        winner_char(m) == m.maximizer,
        m.maximizer != m.default_char,
        m.maximizer != m.minimizer,
    ensures
        has_winning_row(m, m.maximizer) || has_winning_col(m, m.maximizer) || diagonal_won(
            m,
            m.maximizer,
            true,
        ) || diagonal_won(m, m.maximizer, false),
{
    if diagonals_winner(m) != m.default_char {
    } else if rows_winner_from(m, 0) != m.default_char {
        lemma_rows_winner_found(m, 0);
    } else {
        lemma_cols_winner_found(m, 0);
    }
}


proof fn lemma_x_lines_transfer(m: TicTacToeModel, mv: usize, ch: char)
    requires
        TicTacToe::inv(m),
        (mv as int) < m.size * m.size,
        ch != m.minimizer,
    ensures
        ({
            let g = TicTacToe::play_of(m, mv, false);
            &&& (forall|r: int|
                0 <= r < m.size && #[trigger] row_won(g, ch, r) ==> row_won(m, ch, r))
            &&& (forall|c: int|
                0 <= c < m.size && #[trigger] col_won(g, ch, c) ==> col_won(m, ch, c))
            &&& (diagonal_won(g, ch, true) ==> diagonal_won(m, ch, true))
            &&& (diagonal_won(g, ch, false) ==> diagonal_won(m, ch, false))
        }),
{
    let g = TicTacToe::play_of(m, mv, false);
    assert forall|r: int| 0 <= r < m.size && #[trigger] row_won(g, ch, r) implies row_won(
        m,
        ch,
        r,
    ) by {
        assert forall|c: int| 0 <= c < m.size implies cell(m, r, c) == ch by {
            assert(0 <= m.size * r + c < m.size * m.size) by (nonlinear_arith)
                requires
                    0 <= r < m.size,
                    0 <= c < m.size,
            ;
            assert(cell(g, r, c) == ch);
        }
    }
    assert forall|c: int| 0 <= c < m.size && #[trigger] col_won(g, ch, c) implies col_won(
        m,
        ch,
        c,
    ) by {
        assert forall|r: int| 0 <= r < m.size implies cell(m, r, c) == ch by {
            assert(0 <= m.size * r + c < m.size * m.size) by (nonlinear_arith)
                requires
                    0 <= r < m.size,
                    0 <= c < m.size,
            ;
            assert(cell(g, r, c) == ch);
        }
    }
    if diagonal_won(g, ch, true) {
        assert forall|i: int| 0 <= i < m.size implies main_diagonal_cell(m, i) == ch by {
            assert(0 <= m.size * i + i < m.size * m.size) by (nonlinear_arith)
                requires
                    0 <= i < m.size,
            ;
            assert(main_diagonal_cell(g, i) == ch);
        }
    }
    if diagonal_won(g, ch, false) {
        assert forall|i: int| 0 <= i < m.size implies anti_diagonal_cell(m, i) == ch by {
            assert(0 <= m.size * (m.size - 1 - i) + i < m.size * m.size) by (nonlinear_arith)
                requires
                    0 <= i < m.size,
            ;
            assert(anti_diagonal_cell(g, i) == ch);
        }
    }
}

/// A move by the minimizer can never hand the maximizer a win: from a
/// position nobody has won, the position after any minimizer move still
/// reports no maximizer win, and its evaluation is at most zero.
pub proof fn lemma_minimizer_move_never_wins_for_maximizer(m: TicTacToeModel, mv: usize)
    requires
        TicTacToe::inv(m),
        players_distinct(m),
        winner_char(m) == m.default_char,
        TicTacToe::moves_of(m).contains(mv),
    ensures
        winner_char(TicTacToe::play_of(m, mv, false)) != m.maximizer,
        TicTacToe::eval_of(TicTacToe::play_of(m, mv, false)) <= 0,
{
    lemma_free_cells_below(m.board, (m.size * m.size) as int);
    let g = TicTacToe::play_of(m, mv, false);
    lemma_x_lines_transfer(m, mv, m.maximizer);
    lemma_no_winner_no_max_lines(m);
    if winner_char(g) == m.maximizer {
        lemma_winner_has_line(g);
        if has_winning_row(g, m.maximizer) {
            let r = choose|r: int| 0 <= r < g.size && row_won(g, m.maximizer, r);
            assert(row_won(m, m.maximizer, r));
        } else if has_winning_col(g, m.maximizer) {
            let c = choose|c: int| 0 <= c < g.size && col_won(g, m.maximizer, c);
            assert(col_won(m, m.maximizer, c));
        }
        assert(false);
    }
}


proof fn lemma_fold_max_bound(
    m: TicTacToeModel,
    i: int,
    depth: int,
    value: int,
    alpha: int,
    beta: int,
    md: int,
)
    requires
        TicTacToe::inv(m),
        players_distinct(m),
        0 <= i,
        1 <= depth <= md <= DEPTH_LIMIT as int,
        value <= 1000,
    ensures
        fold_score::<TicTacToe>(
            m,
            TicTacToe::moves_of(m),
            i,
            depth,
            value,
            alpha,
            beta,
            true,
            md,
        ) <= 1000,
    decreases depth, TicTacToe::moves_of(m).len() - i,
{
    let moves = TicTacToe::moves_of(m);
    if i < moves.len() {
        assert(moves.contains(moves[i]));
        TicTacToe::lemma_play_preserves_inv(m, moves[i], true);
        let child = TicTacToe::play_of(m, moves[i], true);
        lemma_score_bound_min(child, depth - 1, alpha, beta, md);
        let sc = ab_score::<TicTacToe>(child, depth - 1, false, alpha, beta, md);
        let v2 = if sc > value {
            sc
        } else {
            value
        };
        let a2 = if sc > alpha {
            sc
        } else {
            alpha
        };
        if beta <= a2 {
        } else {
            lemma_fold_max_bound(m, i + 1, depth, v2, a2, beta, md);
        }
    }
}

/// No score the search gives a position with the maximizer to move can
/// exceed the win score, and strictly below the top of the search even
/// the win score is discounted by the mate distance.
pub proof fn lemma_score_bound_max(m: TicTacToeModel, depth: int, alpha: int, beta: int, md: int)
    requires
        TicTacToe::inv(m),
        players_distinct(m),
        0 <= depth <= md <= DEPTH_LIMIT as int,
    ensures
        ab_score::<TicTacToe>(m, depth, true, alpha, beta, md) <= 1000,
        depth >= 1 && !TicTacToe::complete_of(m) && TicTacToe::moves_of(m).len() > 0
            ==> ab_score::<TicTacToe>(m, depth, true, alpha, beta, md) <= 1000 - (md - depth),
    decreases depth, TicTacToe::moves_of(m).len() + 1,
{
    if depth >= 1 && !TicTacToe::complete_of(m) && TicTacToe::moves_of(m).len() > 0 {
        lemma_fold_max_bound(m, 0, depth, NEG_INF as int, alpha, beta, md);
    }
}

/// A position with the minimizer to move, scored strictly inside the
/// search, never reaches the maximizer's win score: the minimizer always
/// has a move that avoids an immediate maximizer win, so the best the
/// maximizer can see through it is a discounted, later win.
pub proof fn lemma_score_bound_min(m: TicTacToeModel, depth: int, alpha: int, beta: int, md: int)
    requires
        TicTacToe::inv(m),
        players_distinct(m),
        0 <= depth <= md <= DEPTH_LIMIT as int,
    ensures
        ab_score::<TicTacToe>(m, depth, false, alpha, beta, md) <= 1000,
        depth >= 1 && !TicTacToe::complete_of(m) && TicTacToe::moves_of(m).len() > 0
            ==> ab_score::<TicTacToe>(m, depth, false, alpha, beta, md) <= 999,
    decreases depth, TicTacToe::moves_of(m).len() + 1,
{
    if depth >= 1 && !TicTacToe::complete_of(m) && TicTacToe::moves_of(m).len() > 0 {
        let moves = TicTacToe::moves_of(m);
        let mv0 = moves[0];
        assert(moves.contains(mv0));
        lemma_minimizer_move_never_wins_for_maximizer(m, mv0);
        TicTacToe::lemma_play_preserves_inv(m, mv0, false);
        let child = TicTacToe::play_of(m, mv0, false);
        lemma_score_bound_max(child, depth - 1, alpha, beta, md);
        let sc = ab_score::<TicTacToe>(child, depth - 1, true, alpha, beta, md);
        let cbound: int = 999 - (md - depth);
        assert(sc <= cbound);
        let v2 = if sc < INF as int {
            sc
        } else {
            INF as int
        };
        let b2 = if sc < beta {
            sc
        } else {
            beta
        };
        if b2 <= alpha {
        } else {
            lemma_min_fold_below_value::<TicTacToe>(m, moves, 1, depth, v2, alpha, b2, md);
        }
        let folded = fold_score::<TicTacToe>(
            m,
            moves,
            0,
            depth,
            INF as int,
            alpha,
            beta,
            false,
            md,
        );
        assert(folded <= cbound);
    }
}

/// Preference for immediate wins, for the whole game: if some available
/// move ends the game at once with the maximizer winning, then the move
/// the root selection picks for the maximizer also ends the game at once
/// with the maximizer winning, at every search depth. A win that needs
/// further moves is scored strictly below the immediate win's score, so
/// it can never be preferred.
pub proof fn lemma_maximizer_takes_an_immediate_win(m: TicTacToeModel, mv: usize, md: int)
    requires
        TicTacToe::inv(m),
        players_distinct(m),
        !TicTacToe::complete_of(m),
        TicTacToe::moves_of(m).contains(mv),
        winner_char(TicTacToe::play_of(m, mv, true)) == m.maximizer,
        0 <= md <= DEPTH_LIMIT as int,
    ensures
        TicTacToe::moves_of(m).contains(best_move_spec::<TicTacToe>(m, md, false)),
        TicTacToe::complete_of(
            TicTacToe::play_of(m, best_move_spec::<TicTacToe>(m, md, false), true),
        ),
        winner_char(TicTacToe::play_of(m, best_move_spec::<TicTacToe>(m, md, false), true))
            == m.maximizer,
{
    let w = TicTacToe::play_of(m, mv, true);
    assert(TicTacToe::complete_of(w));
    assert(TicTacToe::eval_of(w) == 1000);
    lemma_immediate_outcome_bounds_selection::<TicTacToe>(m, mv, false, md);
    let c = best_move_spec::<TicTacToe>(m, md, false);
    let child = TicTacToe::play_of(m, c, true);
    TicTacToe::lemma_play_preserves_inv(m, c, true);
    if md >= 1 && !TicTacToe::complete_of(child) && TicTacToe::moves_of(child).len() > 0 {
        lemma_score_bound_min(child, md, NEG_INF as int, INF as int, md);
        assert(false);
    }
    assert(root_score::<TicTacToe>(m, c, false, md) == TicTacToe::eval_of(child));
    assert(TicTacToe::eval_of(child) == 1000);
    assert(winner_char(child) == m.maximizer);
}


impl Default for TicTacToe {
    /// A standard 3-wide game.
    fn default() -> (r: Self)
        ensures
            r.model() == (TicTacToeModel {
                board: Seq::new(9, |i: int| '-'),
                size: 3,
                default_char: '-',
                maximizer: 'o',
                minimizer: 'x',
            }),
            Self::inv(r.model()),
    {
        TicTacToe::new(3)
    }
}

impl TicTacToe {
    /// Structural well-formedness of the board alone: enough for the
    /// winner checks, which index `board` through `size`.
    pub open spec fn grid_wf(&self) -> bool {
        self.board@.len() == self.size * self.size
    }

    /// A fresh game of the given width: every cell free, `'o'` playing
    /// as the maximizer and `'x'` as the minimizer.
    pub fn new(size: usize) -> (r: Self)
        requires
            size * size + 1 <= usize::MAX,
        ensures
            r.model() == (TicTacToeModel {
                board: Seq::new((size * size) as nat, |i: int| '-'),
                size: size as nat,
                default_char: '-',
                maximizer: 'o',
                minimizer: 'x',
            }),
            Self::inv(r.model()),
    {
        let n = size * size;
        let mut board: Vec<char> = Vec::new();
        let mut i: usize = 0;
        while i < n
            invariant
                i <= n,
                board@.len() == i,
                forall|j: int| 0 <= j < i ==> board@[j] == '-',
            decreases n - i,
        {
            board.push('-');
            i += 1;
        }
        proof {
            assert(board@ =~= Seq::new((size * size) as nat, |i: int| '-'));
        }
        Self { board, size, default_char: '-', maximizer: 'o', minimizer: 'x' }
    }

    /// The same game with the maximizer playing the given character.
    pub fn with_player_1(self, character: char) -> (r: Self)
        ensures
            r.model() == (TicTacToeModel { maximizer: character, ..self.model() }),
    {
        Self { maximizer: character, ..self }
    }

    /// The same game with the minimizer playing the given character.
    pub fn with_player_2(self, character: char) -> (r: Self)
        ensures
            r.model() == (TicTacToeModel { minimizer: character, ..self.model() }),
    {
        Self { minimizer: character, ..self }
    }

    /// The same game with the given character marking free cells.
    pub fn with_default_char(self, character: char) -> (r: Self)
        ensures
            r.model() == (TicTacToeModel { default_char: character, ..self.model() }),
    {
        Self { default_char: character, ..self }
    }

    /// The character the winner scan reports: diagonals first, then
    /// rows, then columns, with the free-cell character when nobody has
    /// won a line.
    fn winner_mark(&self) -> (r: char)
        requires
            self.grid_wf(),
        ensures
            r == winner_char(self.model()),
    {
        let mut winner = self.check_diagonals();
        if winner == self.default_char {
            winner = self.check_rows();
        }
        if winner == self.default_char {
            winner = self.check_cols();
        }
        winner
    }

    /// Check the main and anti-diagonals for a winner.
    pub fn check_diagonals(&self) -> (winner: char)
        requires
            self.grid_wf(),
        ensures
            winner == diagonals_winner(self.model()),
    {
        let mut winner = self.default_char;
        if self.check_diagonal(self.maximizer, true) || self.check_diagonal(
            self.maximizer,
            false,
        ) {
            winner = self.maximizer
        } else if self.check_diagonal(self.minimizer, true) || self.check_diagonal(
            self.minimizer,
            false,
        ) {
            winner = self.minimizer
        }
        winner
    }

    /// Check the rows of the grid for a winner.
    pub fn check_rows(&self) -> (winner: char)
        requires
            self.grid_wf(),
        ensures
            winner == rows_winner_from(self.model(), 0),
    {
        let mut winner = self.default_char;
        let mut row: usize = 0;
        let mut found = false;
        while row < self.size && !found
            invariant
                self.grid_wf(),
                row <= self.size,
                found ==> winner == rows_winner_from(self.model(), 0),
                !found ==> winner == self.default_char && rows_winner_from(self.model(), 0)
                    == rows_winner_from(self.model(), row as int),
            decreases self.size - row, (if found { 0int } else { 1int }),
        {
            if self.check_row(self.maximizer, row) {
                winner = self.maximizer;
                found = true;
            } else if self.check_row(self.minimizer, row) {
                winner = self.minimizer;
                found = true;
            } else {
                row += 1;
            }
        }
        winner
    }

    /// Check the columns of the grid for a winner.
    pub fn check_cols(&self) -> (winner: char)
        requires
            self.grid_wf(),
        ensures
            winner == cols_winner_from(self.model(), 0),
    {
        let mut winner = self.default_char;
        let mut col: usize = 0;
        let mut found = false;
        while col < self.size && !found
            invariant
                self.grid_wf(),
                col <= self.size,
                found ==> winner == cols_winner_from(self.model(), 0),
                !found ==> winner == self.default_char && cols_winner_from(self.model(), 0)
                    == cols_winner_from(self.model(), col as int),
            decreases self.size - col, (if found { 0int } else { 1int }),
        {
            if self.check_col(self.maximizer, col) {
                winner = self.maximizer;
                found = true;
            } else if self.check_col(self.minimizer, col) {
                winner = self.minimizer;
                found = true;
            } else {
                col += 1;
            }
        }
        winner
    }

    /// Check a given column for whether a given player has won it.
    fn check_col(&self, ch: char, col_num: usize) -> (r: bool)
        requires
            self.grid_wf(),
            col_num < self.size,
        ensures
            r == col_won(self.model(), ch, col_num as int),
    {
        let mut row: usize = 0;
        while row < self.size
            invariant
                self.grid_wf(),
                col_num < self.size,
                row <= self.size,
                forall|r: int| 0 <= r < row ==> cell(self.model(), r, col_num as int) == ch,
            decreases self.size - row,
        {
            proof {
                let s = self.size as int;
                let r = row as int;
                let c = col_num as int;
                assert(0 <= s * r + c < s * s) by (nonlinear_arith)
                    requires
                        0 <= r < s,
                        0 <= c < s,
                ;
                assert(self.board.len() == self.board@.len());
                assert(self.board@.len() <= usize::MAX);
            }
            if self.board[self.size * row + col_num] != ch {
                proof {
                    assert(cell(self.model(), row as int, col_num as int) != ch);
                }
                return false;
            }
            proof {
                assert(cell(self.model(), row as int, col_num as int) == ch);
            }
            row += 1;
        }
        true
    }

    /// Check a given row for whether a given player has won it.
    fn check_row(&self, ch: char, row_num: usize) -> (r: bool)
        requires
            self.grid_wf(),
            row_num < self.size,
        ensures
            r == row_won(self.model(), ch, row_num as int),
    {
        let mut col: usize = 0;
        while col < self.size
            invariant
                self.grid_wf(),
                row_num < self.size,
                col <= self.size,
                forall|c: int| 0 <= c < col ==> cell(self.model(), row_num as int, c) == ch,
            decreases self.size - col,
        {
            proof {
                let s = self.size as int;
                let r = row_num as int;
                let c = col as int;
                assert(0 <= s * r + c < s * s) by (nonlinear_arith)
                    requires
                        0 <= r < s,
                        0 <= c < s,
                ;
                assert(self.board.len() == self.board@.len());
                assert(self.board@.len() <= usize::MAX);
            }
            if self.board[self.size * row_num + col] != ch {
                proof {
                    assert(cell(self.model(), row_num as int, col as int) != ch);
                }
                return false;
            }
            proof {
                assert(cell(self.model(), row_num as int, col as int) == ch);
            }
            col += 1;
        }
        true
    }

    /// Check one diagonal for whether a given player has won it: the main
    /// diagonal when `diag` is true, the anti-diagonal otherwise.
    fn check_diagonal(&self, ch: char, diag: bool) -> (r: bool)
        requires
            self.grid_wf(),
        ensures
            r == diagonal_won(self.model(), ch, diag),
    {
        if diag {
            let mut idx: usize = 0;
            while idx < self.size
                invariant
                    diag,
                    self.grid_wf(),
                    idx <= self.size,
                    forall|i: int| 0 <= i < idx ==> main_diagonal_cell(self.model(), i) == ch,
                decreases self.size - idx,
            {
                proof {
                    let s = self.size as int;
                    let i = idx as int;
                    assert(0 <= s * i + i < s * s) by (nonlinear_arith)
                        requires
                            0 <= i < s,
                    ;
                    assert(self.board.len() == self.board@.len());
                    assert(self.board@.len() <= usize::MAX);
                }
                if self.board[self.size * idx + idx] != ch {
                    proof {
                        assert(main_diagonal_cell(self.model(), idx as int) != ch);
                    }
                    return false;
                }
                proof {
                    assert(main_diagonal_cell(self.model(), idx as int) == ch);
                }
                idx += 1;
            }
            true
        } else {
            let mut idx: usize = 0;
            while idx < self.size
                invariant
                    !diag,
                    self.grid_wf(),
                    idx <= self.size,
                    forall|i: int| 0 <= i < idx ==> anti_diagonal_cell(self.model(), i) == ch,
                decreases self.size - idx,
            {
                proof {
                    let s = self.size as int;
                    let i = idx as int;
                    assert(0 <= s * (s - 1 - i) + i < s * s) by (nonlinear_arith)
                        requires
                            0 <= i < s,
                    ;
                    assert(self.board.len() == self.board@.len());
                    assert(self.board@.len() <= usize::MAX);
                }
                if self.board[self.size * (self.size - 1 - idx) + idx] != ch {
                    proof {
                        assert(anti_diagonal_cell(self.model(), idx as int) != ch);
                    }
                    return false;
                }
                proof {
                    assert(anti_diagonal_cell(self.model(), idx as int) == ch);
                }
                idx += 1;
            }
            true
        }
    }
}

impl GameStrategy for TicTacToe {
    /// A player is a character, usually one of 'o', 'O', 'x', 'X'.
    type Player = char;

    /// A move is an index into the board vector, in `[0, size * size)`.
    type Move = usize;

    /// The board is a single vector of length `size * size`.
    type Board = Vec<char>;

    type Model = TicTacToeModel;

    open spec fn model(&self) -> TicTacToeModel {
        TicTacToeModel {
            board: self.board@,
            size: self.size as nat,
            default_char: self.default_char,
            maximizer: self.maximizer,
            minimizer: self.minimizer,
        }
    }

    open spec fn inv(m: TicTacToeModel) -> bool {
        &&& m.board.len() == m.size * m.size
        &&& m.size * m.size + 1 <= usize::MAX
        &&& m.default_char == '-'
    }

    open spec fn moves_of(m: TicTacToeModel) -> Seq<usize> {
        free_cells_below(m.board, (m.size * m.size) as int)
    }

    open spec fn complete_of(m: TicTacToeModel) -> bool {
        Self::moves_of(m).len() == 0 || winner_char(m) != '-'
    }

    open spec fn tied_of(m: TicTacToeModel) -> bool {
        winner_char(m) == m.default_char && Self::moves_of(m).len() == 0
    }

    open spec fn winner_of(m: TicTacToeModel) -> Option<char> {
        if winner_char(m) == m.default_char {
            None
        } else {
            Some(winner_char(m))
        }
    }

    open spec fn eval_of(m: TicTacToeModel) -> int {
        if Self::tied_of(m) {
            0
        } else if winner_char(m) == m.maximizer {
            1000
        } else {
            -1000
        }
    }

    open spec fn board_of(m: TicTacToeModel) -> Seq<char> {
        m.board
    }

    open spec fn play_of(m: TicTacToeModel, mv: usize, maximizer: bool) -> TicTacToeModel {
        TicTacToeModel {
            board: m.board.update(
                mv as int,
                if maximizer {
                    m.maximizer
                } else {
                    m.minimizer
                },
            ),
            ..m
        }
    }

    open spec fn clear_of(m: TicTacToeModel, mv: usize) -> TicTacToeModel {
        TicTacToeModel { board: m.board.update(mv as int, m.default_char), ..m }
    }

    open spec fn sentinel_of(m: TicTacToeModel) -> usize {
        (m.size * m.size + 1) as usize
    }

    open spec fn valid_of(m: TicTacToeModel, mv: usize) -> bool {
        m.board[mv as int] == m.default_char
    }

    open spec fn may_query_valid(m: TicTacToeModel, mv: usize) -> bool {
        (mv as int) < m.board.len()
    }

    proof fn lemma_play_preserves_inv(m: TicTacToeModel, mv: usize, maximizer: bool) {
        lemma_free_cells_below(m.board, (m.size * m.size) as int);
    }

    proof fn lemma_clear_undoes_play(m: TicTacToeModel, mv: usize, maximizer: bool) {
        lemma_free_cells_below(m.board, (m.size * m.size) as int);
        assert(Self::clear_of(Self::play_of(m, mv, maximizer), mv) =~= m);
    }

    proof fn lemma_eval_bounded(m: TicTacToeModel) {
    }

    proof fn lemma_sentinel_not_playable(m: TicTacToeModel) {
        lemma_free_cells_below(m.board, (m.size * m.size) as int);
    }

    fn evaluate(&self) -> (r: i64) {
        if self.is_game_tied() {
            0
        } else {
            let w = self.winner_mark();
            if w == self.maximizer {
                1000
            } else {
                -1000
            }
        }
    }

    fn get_winner(&self) -> (r: Option<char>) {
        let winner = self.winner_mark();
        if winner == self.default_char {
            None
        } else {
            Some(winner)
        }
    }

    fn is_game_tied(&self) -> (r: bool) {
        self.winner_mark() == self.default_char && self.get_available_moves().len() == 0
    }

    fn is_game_complete(&self) -> (r: bool) {
        self.get_available_moves().len() == 0 || self.winner_mark() != '-'
    }

    fn get_available_moves(&self) -> (r: Vec<usize>) {
        let mut moves: Vec<usize> = Vec::new();
        let n = self.size * self.size;
        let mut idx: usize = 0;
        while idx < n
            invariant
                Self::inv(self.model()),
                n == self.size * self.size,
                idx <= n,
                moves@ == free_cells_below(self.board@, idx as int),
            decreases n - idx,
        {
            if self.board[idx] == '-' {
                moves.push(idx);
            }
            proof {
                assert(moves@ =~= free_cells_below(self.board@, idx as int + 1));
            }
            idx += 1;
        }
        moves
    }

    fn play(&mut self, mv: &usize, maximizer: bool) {
        proof {
            let m = self.model();
            lemma_free_cells_below(m.board, (m.size * m.size) as int);
            assert(self.board.len() == self.board@.len());
        }
        if maximizer {
            let c = self.maximizer;
            self.board.set(*mv, c);
        } else {
            let c = self.minimizer;
            self.board.set(*mv, c);
        }
    }

    fn clear(&mut self, mv: &usize) {
        proof {
            let (m0, p): (TicTacToeModel, bool) = choose|m0: TicTacToeModel, p: bool|
                Self::inv(m0) && Self::moves_of(m0).contains(*mv) && self.model() == Self::play_of(
                    m0,
                    *mv,
                    p,
                );
            lemma_free_cells_below(m0.board, (m0.size * m0.size) as int);
            assert(self.board.len() == self.board@.len());
        }
        let c = self.default_char;
        self.board.set(*mv, c);
    }

    fn get_board(&self) -> (r: &Vec<char>) {
        &self.board
    }

    fn is_a_valid_move(&self, mv: &usize) -> (r: bool) {
        self.board[*mv] == self.default_char
    }

    fn get_a_sentinel_move(&self) -> (r: usize) {
        self.size * self.size + 1
    }
}

} // verus!
