use std::collections::VecDeque;
use t1xr::buffers::{joined, push_back_capped, push_front_trimmed, tape_window};

#[test]
fn back_history_keeps_newest() {
    let mut q: VecDeque<u32> = VecDeque::new();
    for x in 1..=5 {
        push_back_capped(&mut q, x, 3);
    }
    assert_eq!(q, VecDeque::from(vec![3, 4, 5]));
    push_back_capped(&mut q, 6, 3);
    assert_eq!(q, VecDeque::from(vec![4, 5, 6]));
}

#[test]
fn back_history_drops_only_one() {
    let mut q: VecDeque<u32> = VecDeque::from(vec![1, 2, 3, 4]);
    push_back_capped(&mut q, 5, 2);
    assert_eq!(q, VecDeque::from(vec![2, 3, 4, 5]));
}

#[test]
fn front_ledger_trims_to_cap() {
    let mut q: VecDeque<&str> = VecDeque::new();
    for s in ["a", "b", "c", "d"] {
        push_front_trimmed(&mut q, s, 3);
    }
    assert_eq!(q, VecDeque::from(vec!["d", "c", "b"]));
    let mut big: VecDeque<u8> = VecDeque::from(vec![1, 2, 3, 4, 5]);
    push_front_trimmed(&mut big, 0, 2);
    assert_eq!(big, VecDeque::from(vec![0, 1]));
}

#[test]
fn front_ledger_with_zero_cap_is_empty() {
    let mut q: VecDeque<u8> = VecDeque::from(vec![1]);
    push_front_trimmed(&mut q, 9, 0);
    assert!(q.is_empty());
}

#[test]
fn series_joins_closes_and_live_prices() {
    let a: VecDeque<f32> = VecDeque::from(vec![1.0, 2.0]);
    let b: VecDeque<f32> = VecDeque::from(vec![3.0]);
    assert_eq!(joined(&a, &b), vec![1.0, 2.0, 3.0]);
    let e: VecDeque<f32> = VecDeque::new();
    assert_eq!(joined(&e, &e), Vec::<f32>::new());
}

#[test]
fn tape_rotates_and_cuts() {
    let cells: Vec<u8> = vec![1, 2, 3, 4, 5];
    assert_eq!(tape_window(&cells, 0, 3), vec![1, 2, 3]);
    assert_eq!(tape_window(&cells, 2, 3), vec![3, 4, 5]);
    assert_eq!(tape_window(&cells, 4, 3), vec![5, 1, 2]);
    assert_eq!(tape_window(&cells, 12, 14), vec![3, 4, 5, 1, 2]);
    let empty: Vec<u8> = Vec::new();
    assert_eq!(tape_window(&empty, 7, 14), Vec::<u8>::new());
    assert_eq!(tape_window(&cells, 1, 0), Vec::<u8>::new());
}
