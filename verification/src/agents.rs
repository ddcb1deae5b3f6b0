//! The learning players and the self-play trainer.

pub mod players;
pub mod trainer;
