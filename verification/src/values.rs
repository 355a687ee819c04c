//! Integer constants of the simulation.

use vstd::prelude::*;

verus! {

/// Number of listed stock slots.
pub const EVALUATED: usize = 1023;
/// Number of exchanges the stocks are spread over.
pub const EXCHANGES: usize = 4;

/// Calendar days in a simulated year.
pub const DAYS_YEAR: u64 = 384;
/// Simulation ticks in one day.
pub const TICKS_DAY: u64 = 256;
/// Trading days at the start of each week.
pub const DAYS_TRADING: u64 = 5;
/// Rest days closing each week.
pub const DAYS_REST: u64 = 2;
/// Length of a week in days.
pub const LENGTH_WEEK: u64 = DAYS_TRADING + DAYS_REST;

/// Years of warm-up run before the clock starts.
pub const PREHEAT_YEARS: u64 = 0;
/// Ticks of warm-up run before the clock starts.
pub const PREHEAT_TICKS: u64 = PREHEAT_YEARS * DAYS_YEAR * TICKS_DAY;
/// Daily closes kept per stock.
pub const DAYS_HISTOGRAPH: usize = 1280;
/// Intraday prices kept per stock.
pub const LIVE_RING: usize = 1024;

/// Number of simulated brokers.
pub const BROKERS: usize = 127;

/// Recent fills kept in the viewer's ledger.
pub const LEDGER_LINES: usize = 12;

/// Default seed, high half.
pub const QUOTIENT_HIGH: u64 = 0xF987_E789_D987_C789;
/// Default seed, low half.
pub const QUOTIENT_LOW: u64 = 0x1110_1010_0101_1001;

/// Salt mixed into the high half when stretching a seed.
pub const SPLIT_MIX_HIGH: u64 = 0xE198_C891_E198_C891;
/// Weyl increment of SplitMix64 (odd).
pub const NEXT_U64: u64 = 0x9E37_79B9_7F4A_7C15;
/// First multiplier of the SplitMix64 finaliser.
pub const Z_STEP_1: u64 = 0xBF58_476D_1CE4_E5B9;
/// Second multiplier of the SplitMix64 finaliser.
pub const Z_STEP_2: u64 = 0x94D0_49BB_1331_11EB;
/// First xor-shift of the finaliser.
pub const BIT_SHIFT_1: u64 = 30;
/// Second xor-shift of the finaliser.
pub const BIT_SHIFT_2: u64 = 27;
/// Third xor-shift of the finaliser.
pub const BIT_SHIFT_3: u64 = 31;
/// Salt of the parameter stream of a fresh engine.
pub const SCRAMBLING_SALT: u64 = 0xA5A5_5A5A_F0F0_0F0F;

} // verus!
