//! A turn-based rugby match engine: field, rosters and ball, the per-tick
//! phase handlers (open play, scrum, ruck, penalty), ball flight, pickup and
//! the contests that decide possession, all over fixed-point integers.

pub mod actions;
pub mod breakdown;
pub mod commands;
pub mod dice;
pub mod geometry;
pub mod init;
pub mod laws;
pub mod model;
pub mod motion;
pub mod phases;
pub mod possession;
pub mod report;
pub mod rules;
pub mod setup;
pub mod snapshot;
pub mod text;
pub mod tokens;
