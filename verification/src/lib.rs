//! Deterministic core of a stock-market simulation: seeding and the
//! SplitMix64 parameter stream, the trading calendar, ticker names,
//! exchange membership, broker rosters, bounded price histories and the
//! colour themes of the viewer.

pub mod values;
pub mod seed;
pub mod names;
pub mod regime;
pub mod calendar;
pub mod markets;
pub mod buffers;
pub mod themes;
pub mod rng;
pub mod search;
pub mod roster;
