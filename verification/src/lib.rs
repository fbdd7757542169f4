//! Replay engine for competitive-wager match records.
//!
//! A `Simulation` replays an ordered sequence of match `Record`s through a
//! pluggable betting `Strategy`, tracking a bankroll that evolves match by
//! match, and builds a per-competitor history index that the statistic
//! subsystem (`Lookup` and friends) aggregates over.

pub mod record;
pub mod rng;
pub mod ratio;
pub mod simulation;
pub mod lookup;
