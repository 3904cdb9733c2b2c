pub mod tic_tac_toe;

pub use tic_tac_toe::TicTacToe;
