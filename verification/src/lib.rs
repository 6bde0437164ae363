//! Judgement engine of a rhythm-game chart player.
//!
//! Time is counted in whole milliseconds and positions in fixed-point units
//! ([`units::UNIT`] of them make one viewport unit), so that every timing window
//! and every distance test is exact integer arithmetic.

pub mod units;
pub mod tracker;
pub mod chart;
pub mod judge;
pub mod sweep;
pub mod frame;
pub mod matching;
pub mod strike;
pub mod effects;
pub mod order;
pub mod score;
pub mod intake;
pub mod laws;
