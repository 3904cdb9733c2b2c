//! A depth-limited minimax engine with alpha-beta pruning for two-player,
//! zero-sum, perfect-information games, together with the game-state
//! contract any concrete game must satisfy and a grid tic-tac-toe game
//! that satisfies it.

pub mod games;
pub mod strategy;
