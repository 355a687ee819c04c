use rand::{RngCore, SeedableRng};
use rand_chacha::ChaCha8Rng;
use t1xr::rng::{market_stream, param_stream, resumed_param_stream, resumed_stream};
use t1xr::seed::SplitMix64;
use t1xr::values::{QUOTIENT_HIGH, QUOTIENT_LOW, SCRAMBLING_SALT};
use t1xr::seed::SeedMarketTheory;

#[test]
fn market_stream_is_keyed_by_the_stretched_seed() {
    let seed = SeedMarketTheory { q_high: 3, q_low: 4 };
    let mut a = market_stream(seed);
    let mut b = ChaCha8Rng::from_seed(seed.expand());
    for _ in 0..10 {
        assert_eq!(a.next_u32(), b.next_u32());
    }
}

#[test]
fn resumed_stream_skips_tick_mod_4096_words() {
    let seed = SeedMarketTheory { q_high: 3, q_low: 4 };
    let mut fresh = market_stream(seed);
    for _ in 0..5 {
        fresh.next_u32();
    }
    let mut resumed = resumed_stream(seed, 5);
    assert_eq!(resumed.next_u32(), fresh.next_u32());
    let mut wrapped = resumed_stream(seed, 4096 + 5);
    let mut again = resumed_stream(seed, 5);
    assert_eq!(wrapped.next_u32(), again.next_u32());
    let mut zero = resumed_stream(seed, 0);
    let mut start = market_stream(seed);
    assert_eq!(zero.next_u32(), start.next_u32());
}

#[test]
fn distinct_seeds_give_distinct_streams() {
    let mut a = market_stream(SeedMarketTheory { q_high: 1, q_low: 2 });
    let mut b = market_stream(SeedMarketTheory { q_high: 2, q_low: 1 });
    let xa: Vec<u32> = (0..4).map(|_| a.next_u32()).collect();
    let xb: Vec<u32> = (0..4).map(|_| b.next_u32()).collect();
    assert_ne!(xa, xb);
}

#[test]
fn parameter_streams_are_salted_low_halves() {
    let seed = SeedMarketTheory { q_high: QUOTIENT_HIGH, q_low: QUOTIENT_LOW };
    let mut a = param_stream(seed);
    let mut b = SplitMix64::new(QUOTIENT_LOW ^ SCRAMBLING_SALT);
    assert_eq!(a.next_u64(), b.next_u64());
    let mut c = resumed_param_stream(seed, 77);
    let mut d = SplitMix64::new(QUOTIENT_LOW ^ 77);
    assert_eq!(c.next_u64(), d.next_u64());
    let mut e = param_stream(SeedMarketTheory { q_high: 0, q_low: SCRAMBLING_SALT });
    assert_eq!(e.next_u64(), 0xe220a8397b1dcdaf);
}

#[test]
fn streams_report_their_key_and_position() {
    let seed = SeedMarketTheory { q_high: 3, q_low: 4 };
    let fresh = market_stream(seed);
    assert_eq!(fresh.get_seed(), seed.expand());
    assert_eq!(fresh.get_word_pos(), 0);
    assert_eq!(fresh.get_stream(), 0);
    let resumed = resumed_stream(seed, 4096 * 3 + 77);
    assert_eq!(resumed.get_seed(), seed.expand());
    assert_eq!(resumed.get_word_pos(), 77);
    assert_eq!(resumed.get_stream(), 0);
    let mut stepped = market_stream(seed);
    stepped.next_u32();
    assert_eq!(stepped.get_word_pos(), 1);
}
