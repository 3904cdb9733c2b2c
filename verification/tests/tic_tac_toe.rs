use minimax_alpha_beta::games::tic_tac_toe::TicTacToe;
use minimax_alpha_beta::strategy::game_strategy::GameStrategy;

#[test]
fn new_board_is_all_free_cells() {
    let ttt = TicTacToe::new(3);
    assert_eq!(ttt.size, 3);
    assert_eq!(ttt.default_char, '-');
    assert_eq!(ttt.maximizer, 'o');
    assert_eq!(ttt.minimizer, 'x');
    assert_eq!(ttt.get_board().len(), 9);
    assert!(ttt.get_board().iter().all(|&c| c == '-'));
    assert_eq!(
        ttt.get_available_moves(),
        vec![0, 1, 2, 3, 4, 5, 6, 7, 8]
    );
}

#[test]
fn default_game_is_three_wide() {
    let ttt = TicTacToe::default();
    assert_eq!(ttt.size, 3);
    assert_eq!(ttt.get_board().len(), 9);
    assert_eq!(ttt.default_char, '-');
}

#[test]
fn builders_change_the_characters() {
    let ttt = TicTacToe::new(3)
        .with_player_1('A')
        .with_player_2('B')
        .with_default_char('-');
    assert_eq!(ttt.maximizer, 'A');
    assert_eq!(ttt.minimizer, 'B');
    assert_eq!(ttt.default_char, '-');
}

#[test]
fn play_marks_the_chosen_cell() {
    let mut ttt = TicTacToe::new(3);
    ttt.play(&4, true);
    assert_eq!(ttt.get_board()[4], 'o');
    ttt.play(&0, false);
    assert_eq!(ttt.get_board()[0], 'x');
    assert_eq!(ttt.get_available_moves(), vec![1, 2, 3, 5, 6, 7, 8]);
}

#[test]
fn play_then_clear_restores_the_position() {
    let mut ttt = TicTacToe::new(3);
    ttt.play(&8, true);
    ttt.play(&7, false);

    let eval_before = ttt.evaluate();
    let moves_before = ttt.get_available_moves();
    let complete_before = ttt.is_game_complete();
    let board_before = ttt.get_board().clone();

    ttt.play(&4, true);
    ttt.clear(&4);

    assert_eq!(ttt.evaluate(), eval_before);
    assert_eq!(ttt.get_available_moves(), moves_before);
    assert_eq!(ttt.is_game_complete(), complete_before);
    assert_eq!(ttt.get_board(), &board_before);
}

#[test]
fn row_win_is_detected_and_scored() {
    let mut ttt = TicTacToe::new(3);
    ttt.play(&0, true);
    ttt.play(&3, false);
    ttt.play(&1, true);
    ttt.play(&4, false);
    ttt.play(&2, true);
    assert_eq!(ttt.check_rows(), 'o');
    assert_eq!(ttt.get_winner(), Some('o'));
    assert!(ttt.is_game_complete());
    assert!(!ttt.is_game_tied());
    assert_eq!(ttt.evaluate(), 1000);
}

#[test]
fn column_win_is_detected_and_scored() {
    let mut ttt = TicTacToe::new(3);
    ttt.play(&0, true);
    ttt.play(&1, false);
    ttt.play(&3, true);
    ttt.play(&4, false);
    ttt.play(&8, true);
    ttt.play(&7, false);
    assert_eq!(ttt.check_cols(), 'x');
    assert_eq!(ttt.get_winner(), Some('x'));
    assert!(ttt.is_game_complete());
    assert_eq!(ttt.evaluate(), -1000);
}

#[test]
fn diagonal_wins_are_detected() {
    let mut main_diag = TicTacToe::new(3);
    main_diag.play(&0, true);
    main_diag.play(&4, true);
    main_diag.play(&8, true);
    assert_eq!(main_diag.check_diagonals(), 'o');
    assert_eq!(main_diag.get_winner(), Some('o'));

    let mut anti_diag = TicTacToe::new(3);
    anti_diag.play(&2, false);
    anti_diag.play(&4, false);
    anti_diag.play(&6, false);
    assert_eq!(anti_diag.check_diagonals(), 'x');
    assert_eq!(anti_diag.get_winner(), Some('x'));
}

#[test]
fn full_board_with_no_line_is_tied() {
    let mut ttt = TicTacToe::new(3);
    // o x o
    // o x x
    // x o o
    for (i, maximizer) in [
        (0, true),
        (1, false),
        (2, true),
        (3, true),
        (4, false),
        (5, false),
        (6, false),
        (7, true),
        (8, true),
    ] {
        ttt.play(&i, maximizer);
    }
    assert_eq!(ttt.get_winner(), None);
    assert!(ttt.is_game_tied());
    assert!(ttt.is_game_complete());
    assert_eq!(ttt.evaluate(), 0);
    assert_eq!(ttt.get_available_moves(), Vec::<usize>::new());
}

#[test]
fn ongoing_board_evaluates_against_the_maximizer() {
    let ttt = TicTacToe::new(3);
    assert_eq!(ttt.get_winner(), None);
    assert!(!ttt.is_game_tied());
    assert!(!ttt.is_game_complete());
    assert_eq!(ttt.evaluate(), -1000);
}

#[test]
fn custom_characters_win_as_usual() {
    let mut ttt = TicTacToe::new(3).with_player_1('A').with_player_2('B');
    ttt.play(&0, true);
    ttt.play(&6, false);
    ttt.play(&1, true);
    ttt.play(&7, false);
    ttt.play(&2, true);
    assert_eq!(ttt.get_winner(), Some('A'));
    assert_eq!(ttt.evaluate(), 1000);
}

#[test]
fn valid_moves_are_the_free_cells() {
    let mut ttt = TicTacToe::new(3);
    ttt.play(&4, true);
    assert!(ttt.is_a_valid_move(&0));
    assert!(!ttt.is_a_valid_move(&4));
}

#[test]
fn sentinel_is_off_the_board() {
    let ttt = TicTacToe::new(3);
    assert_eq!(ttt.get_a_sentinel_move(), 10);
    let wide = TicTacToe::new(4);
    assert_eq!(wide.get_a_sentinel_move(), 17);
    assert_eq!(wide.get_available_moves().len(), 16);
}
