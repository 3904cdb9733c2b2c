use minimax_alpha_beta::games::tic_tac_toe::TicTacToe;
use minimax_alpha_beta::strategy::alpha_beta_minimax::AlphaBetaMiniMaxStrategy;
use minimax_alpha_beta::strategy::game_strategy::GameStrategy;

#[test]
fn best_move_in_given_3_by_3() {
    let mut ttt = TicTacToe::new(3)
        .with_player_1('o')
        .with_player_2('x')
        .with_default_char('-');

    ttt.play(&8, true);
    ttt.play(&7, false);
    ttt.play(&5, true);

    assert_eq!(ttt.get_best_move(9, false), 2);
}

#[test]
fn test_should_always_tie_a_3_by_3_after_9_moves_at_depth_9() {
    let mut ttt = TicTacToe::new(3);
    for move_number in 0..=8 {
        let is_maximising = move_number % 2 == 0;
        let i = ttt.get_best_move(9, is_maximising);
        ttt.play(&i, is_maximising);
    }
    assert!(ttt.is_game_complete());
    assert!(ttt.is_game_tied());
}

#[test]
fn complete_game_returns_the_sentinel_move() {
    let mut ttt = TicTacToe::new(3);
    ttt.play(&0, true);
    ttt.play(&3, false);
    ttt.play(&1, true);
    ttt.play(&4, false);
    ttt.play(&2, true);
    assert!(ttt.is_game_complete());
    assert_eq!(ttt.get_best_move(9, false), 10);
    assert_eq!(ttt.get_best_move(9, true), 10);
}

#[test]
fn immediate_win_is_taken_by_the_maximizer() {
    // o needs only cell 2 to finish the top row; x threatens the middle
    // row, so every slower plan scores strictly worse than winning now.
    let mut ttt = TicTacToe::new(3);
    ttt.play(&0, true);
    ttt.play(&3, false);
    ttt.play(&1, true);
    ttt.play(&4, false);
    assert_eq!(ttt.get_best_move(9, false), 2);
}

#[test]
fn immediate_win_is_taken_by_the_maximizer_even_at_shallow_depth() {
    let mut ttt = TicTacToe::new(3);
    ttt.play(&0, true);
    ttt.play(&3, false);
    ttt.play(&1, true);
    ttt.play(&4, false);
    assert_eq!(ttt.get_best_move(1, false), 2);
}

#[test]
fn immediate_win_is_taken_by_the_minimizer() {
    let mut ttt = TicTacToe::new(3);
    ttt.play(&3, true);
    ttt.play(&0, false);
    ttt.play(&4, true);
    ttt.play(&1, false);
    ttt.play(&7, true);
    assert_eq!(ttt.get_best_move(9, true), 2);
}

#[test]
fn best_move_is_deterministic_and_leaves_the_state_alone() {
    let mut ttt = TicTacToe::new(3);
    ttt.play(&8, true);
    ttt.play(&7, false);
    ttt.play(&5, true);

    let board_before = ttt.get_board().clone();
    let first = ttt.get_best_move(9, false);
    let second = ttt.get_best_move(9, false);
    assert_eq!(first, second);
    assert_eq!(ttt.get_board(), &board_before);
}

#[test]
fn equal_scores_tie_break_to_the_last_move() {
    // at depth 0 every candidate is scored by the same static evaluation
    // of an ongoing position, so the last move in generation order wins
    let mut ttt = TicTacToe::new(3);
    assert_eq!(ttt.get_best_move(0, false), 8);
    assert_eq!(ttt.get_best_move(0, true), 8);
}

#[test]
fn search_runs_on_a_wider_board() {
    let mut ttt = TicTacToe::new(4);
    let best = ttt.get_best_move(2, true);
    assert!(best < 16);
}
