//! A generic adversarial game-search engine: abstract state/action/effect
//! contracts for deterministic and stochastic games, strategies that rate and
//! pick actions, and an exhaustive minimax search with alpha-beta pruning
//! whose results are specified exactly. Rewards, ratings and probabilities
//! are fixed-point values in millionths.

pub mod winner;
pub mod state;
pub mod deterministic_state;
pub mod strategy;
pub mod strategies;
pub mod tictactoe;
