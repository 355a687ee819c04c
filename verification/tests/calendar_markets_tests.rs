use t1xr::calendar::{day, market_open, next_tick};
use t1xr::markets::{market_members, market_of, select, strategy_for, Strategy};
use t1xr::values::{EVALUATED, EXCHANGES, TICKS_DAY};

#[test]
fn days_from_ticks() {
    assert_eq!(day(0), 0);
    assert_eq!(day(255), 0);
    assert_eq!(day(256), 1);
    assert_eq!(day(256 * 9 + 17), 9);
}

#[test]
fn trading_week_pattern() {
    let opens: Vec<bool> = (0..14u64).map(|d| market_open(d * TICKS_DAY)).collect();
    assert_eq!(
        opens,
        vec![true, true, true, true, true, false, false, true, true, true, true, true, false, false]
    );
    // every tick of a day shares its status
    assert!(market_open(4 * TICKS_DAY + 255));
    assert!(!market_open(5 * TICKS_DAY));
    assert!(!market_open(7 * TICKS_DAY - 1));
}

#[test]
fn trading_status_repeats_weekly() {
    for t in [0u64, 3, 300, 1290, 1700, 99_999] {
        assert_eq!(market_open(t), market_open(t + 7 * TICKS_DAY));
    }
}

#[test]
fn next_tick_marks_day_starts() {
    assert_eq!(next_tick(0), (1, false));
    assert_eq!(next_tick(254), (255, false));
    assert_eq!(next_tick(255), (256, true));
    assert_eq!(next_tick(511), (512, true));
}

#[test]
fn slots_are_dealt_round_robin() {
    assert_eq!(market_of(0), 0);
    assert_eq!(market_of(5), 1);
    assert_eq!(market_of(1022), 2);
}

#[test]
fn exchange_members() {
    let m0 = market_members(0);
    assert_eq!(m0.len(), 256);
    assert_eq!(&m0[..3], &[0, 4, 8]);
    assert_eq!(*m0.last().unwrap(), 1020);
    let m3 = market_members(3);
    assert_eq!(m3.len(), 255);
    assert_eq!(*m3.last().unwrap(), 1019);
    let mut all: Vec<u32> = (0..EXCHANGES).flat_map(market_members).collect();
    all.sort();
    assert_eq!(all, (0..EVALUATED as u32).collect::<Vec<u32>>());
}

#[test]
fn strategies_cycle() {
    let got: Vec<Strategy> = (0..8).map(strategy_for).collect();
    assert_eq!(
        got,
        vec![
            Strategy::Momentum,
            Strategy::Value,
            Strategy::Index,
            Strategy::Panic,
            Strategy::Whale,
            Strategy::Random,
            Strategy::Momentum,
            Strategy::Value,
        ]
    );
    assert_eq!(strategy_for(126), Strategy::Momentum);
}

#[test]
fn selection_ignores_missing_slots() {
    assert_eq!(select(3, 10, 20), 10);
    assert_eq!(select(3, 20, 20), 3);
    assert_eq!(select(3, 0, 0), 3);
}
