pub mod alpha_beta_minimax;
pub mod game_strategy;
