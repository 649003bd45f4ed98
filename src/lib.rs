//! A turn-based card game over a bounded pool of numbers: the pool and its
//! overflow payout, the weighted card draw, and the session state machine
//! that drives a game from its lobby to its close.

pub mod stack;
pub mod cards;
pub mod player;
pub mod session;
