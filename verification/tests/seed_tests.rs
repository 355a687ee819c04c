use t1xr::seed::{SeedMarketTheory, SplitMix64};
use t1xr::values::{QUOTIENT_HIGH, QUOTIENT_LOW};

#[test]
fn as_u128_puts_high_half_on_top() {
    let s = SeedMarketTheory { q_high: QUOTIENT_HIGH, q_low: QUOTIENT_LOW };
    assert_eq!(s.as_u128(), 0xf987e789d987c7891110101001011001u128);
    let one = SeedMarketTheory { q_high: 1, q_low: 0 };
    assert_eq!(one.as_u128(), 1u128 << 64);
    let max = SeedMarketTheory { q_high: u64::MAX, q_low: u64::MAX };
    assert_eq!(max.as_u128(), u128::MAX);
}

#[test]
fn expand_default_seed_bytes() {
    let s = SeedMarketTheory { q_high: QUOTIENT_HIGH, q_low: QUOTIENT_LOW };
    let expected: [u8; 32] = [
        1, 16, 1, 1, 16, 16, 16, 17, 137, 199, 135, 217, 137, 231, 135, 249, 184, 36, 205, 164, 165,
        34, 96, 177, 140, 85, 112, 27, 220, 147, 38, 89,
    ];
    assert_eq!(s.expand(), expected);
}

#[test]
fn expand_zero_seed_bytes() {
    let s = SeedMarketTheory { q_high: 0, q_low: 0 };
    let expected: [u8; 32] = [
        0, 0, 0, 0, 0, 0, 0, 0, 0, 0, 0, 0, 0, 0, 0, 0, 217, 67, 194, 102, 75, 75, 156, 117, 198,
        159, 211, 191, 244, 17, 180, 155,
    ];
    assert_eq!(s.expand(), expected);
}

#[test]
fn expand_starts_with_the_seed_little_endian() {
    let s = SeedMarketTheory { q_high: 0x0102030405060708, q_low: 0x1112131415161718 };
    let e = s.expand();
    assert_eq!(&e[..16], &s.as_u128().to_le_bytes()[..]);
}

#[test]
fn expand_separates_nearby_seeds() {
    let a = SeedMarketTheory { q_high: 5, q_low: 9 }.expand();
    let b = SeedMarketTheory { q_high: 5, q_low: 10 }.expand();
    let c = SeedMarketTheory { q_high: 6, q_low: 9 }.expand();
    assert_ne!(a, b);
    assert_ne!(a, c);
    assert_ne!(b, c);
    assert_eq!(a, SeedMarketTheory { q_high: 5, q_low: 9 }.expand());
}

#[test]
fn splitmix_reference_outputs() {
    let mut sm = SplitMix64::new(0);
    assert_eq!(sm.next_u64(), 0xe220a8397b1dcdaf);
    assert_eq!(sm.next_u64(), 0x6e789e6aa1b965f4);
    assert_eq!(sm.next_u64(), 0x06c45d188009454f);
}

#[test]
fn splitmix_same_state_same_stream() {
    let mut a = SplitMix64::new(0xdead_beef);
    let mut b = SplitMix64::new(0xdead_beef);
    for _ in 0..100 {
        assert_eq!(a.next_u64(), b.next_u64());
    }
}

#[test]
fn splitmix_no_repeats_in_a_prefix() {
    let mut sm = SplitMix64::new(12345);
    let mut seen: Vec<u64> = (0..2000).map(|_| sm.next_u64()).collect();
    seen.sort();
    seen.dedup();
    assert_eq!(seen.len(), 2000);
}

#[test]
fn splitmix_wraps_around_the_top() {
    let mut a = SplitMix64::new(u64::MAX);
    let mut b = SplitMix64::new(u64::MAX);
    let first = a.next_u64();
    assert_eq!(first, b.next_u64());
    let mut c = SplitMix64::new(0x9E37_79B9_7F4A_7C15u64.wrapping_add(u64::MAX).wrapping_sub(0x9E37_79B9_7F4A_7C15));
    assert_eq!(c.next_u64(), first);
}

#[test]
fn splitmix_distinct_seeds_differ_at_once() {
    for s in 0..64u64 {
        let mut a = SplitMix64::new(s);
        let mut b = SplitMix64::new(s.wrapping_add(1));
        assert_ne!(a.next_u64(), b.next_u64());
    }
}
