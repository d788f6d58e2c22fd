//! An Othello (Reversi) engine: a rule engine that computes legal moves,
//! flip sets and game outcomes, and an adversarial search engine (negamax
//! with alpha-beta pruning over a positional heuristic) that picks moves.

pub mod board;
pub mod common;
pub mod referee;
pub mod ai;
pub mod game;
