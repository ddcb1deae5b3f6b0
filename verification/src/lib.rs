//! Verified core of a tabular reinforcement-learning player for a 3x3
//! two-player board game: board bookkeeping, a lazily populated value table,
//! an epsilon-greedy policy with temporal-difference updates, step-decay
//! annealing of the learning and exploration rates, a self-play trainer, and
//! a binary codec for persisting a player's learned state.

pub mod agents;
pub mod annealing;
pub mod codec;
pub mod game;
pub mod states;
pub mod values;
