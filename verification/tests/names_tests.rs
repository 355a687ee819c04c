use t1xr::names::{
    broker_name, draw_nameplate, form_ticker_nameplate, nameplate_length, ticker_from_draws, NameRegistry,
};
use t1xr::seed::SplitMix64;
use t1xr::values::{QUOTIENT_LOW, SCRAMBLING_SALT};

use rand::SeedableRng;
use rand_chacha::ChaCha8Rng;

const ALPHA: &str = "ABCDEFGHKLMNOPQRSTUVWXYZ123456789";

fn spell(sm: &mut SplitMix64, len: usize) -> String {
    let chars: Vec<char> = ALPHA.chars().collect();
    (0..len).map(|_| chars[(sm.next_u64() as usize) % chars.len()]).collect()
}

#[test]
fn engine_seed_first_names() {
    let mut sm = SplitMix64::new(QUOTIENT_LOW ^ SCRAMBLING_SALT);
    let mut used = NameRegistry::new();
    let got: Vec<String> = (0u16..4).map(|m| draw_nameplate(&mut sm, m, &mut used)).collect();
    assert_eq!(got, vec!["YYP", "X9N1", "DD1", "LCF6G"]);
    assert_eq!(used.len(), 4);
}

#[test]
fn names_and_stream_position_for_seed_42() {
    let mut sm = SplitMix64::new(42);
    let mut used = NameRegistry::new();
    let got: Vec<String> = (0..6).map(|i| draw_nameplate(&mut sm, (i % 4) as u16, &mut used)).collect();
    assert_eq!(got, vec!["8S1", "OPLH", "CM9", "CEKE9", "FZL", "RDU5"]);
    // the stream moved by exactly the characters spelt: 3+4+3+5+3+4 draws
    let mut fresh = SplitMix64::new(42);
    for _ in 0..22 {
        fresh.next_u64();
    }
    assert_eq!(sm.next_u64(), fresh.next_u64());
}

#[test]
fn taken_name_is_skipped() {
    let mut probe = SplitMix64::new(42);
    let first = spell(&mut probe, 3);
    let second = spell(&mut probe, 3);
    let mut used = NameRegistry::from_names(vec![first.clone()]);
    let mut sm = SplitMix64::new(42);
    let got = draw_nameplate(&mut sm, 0, &mut used);
    assert_eq!(got, second);
    assert!(used.contains(&first));
    assert!(used.contains(&second));
    assert_eq!(used.len(), 2);
}

#[test]
fn numbered_name_when_all_tries_are_taken() {
    let mut probe = SplitMix64::new(7);
    let tries: Vec<String> = (0..64).map(|_| spell(&mut probe, 3)).collect();
    let mut used = NameRegistry::from_names(tries.clone());
    let n = used.len();
    let mut sm = SplitMix64::new(7);
    let got = draw_nameplate(&mut sm, 0, &mut used);
    assert_eq!(got, format!("Z{n}"));
    assert_eq!(used.len(), n + 1);
    // the stream moved by all 64 tries of 3 characters
    assert_eq!(sm.next_u64(), probe.next_u64());
}

#[test]
fn numbered_name_skips_taken_numbers() {
    let mut probe = SplitMix64::new(7);
    let mut tries: Vec<String> = (0..64).map(|_| spell(&mut probe, 3)).collect();
    tries.dedup();
    let base = {
        let r = NameRegistry::from_names(tries.clone());
        r.len()
    };
    tries.push(format!("Z{}", base + 2));
    tries.push(format!("Z{}", base + 3));
    let mut used = NameRegistry::from_names(tries);
    let total = used.len();
    let mut sm = SplitMix64::new(7);
    let got = draw_nameplate(&mut sm, 0, &mut used);
    // counting starts at the number of names in use, and skips the taken one
    assert_eq!(total, base + 2);
    assert_eq!(got, format!("Z{}", base + 4));
}

#[test]
fn nameplate_lengths_per_exchange() {
    assert_eq!(nameplate_length(0), 3);
    assert_eq!(nameplate_length(1), 4);
    assert_eq!(nameplate_length(2), 3);
    assert_eq!(nameplate_length(3), 5);
}

#[test]
fn registry_remove_and_reuse() {
    let mut used = NameRegistry::from_names(vec!["AAA".to_string(), "BBB".to_string(), "AAA".to_string()]);
    assert_eq!(used.len(), 2);
    used.remove(&"AAA".to_string());
    assert!(!used.contains(&"AAA".to_string()));
    assert!(used.contains(&"BBB".to_string()));
    assert_eq!(used.len(), 1);
    used.remove(&"ZZZ".to_string());
    assert_eq!(used.len(), 1);
    let mut v = used.to_vec();
    v.sort();
    assert_eq!(v, vec!["BBB".to_string()]);
}

#[test]
fn registry_round_trips_through_a_list() {
    let mut sm = SplitMix64::new(99);
    let mut used = NameRegistry::new();
    for i in 0..50u16 {
        draw_nameplate(&mut sm, i % 4, &mut used);
    }
    let list = used.to_vec();
    assert_eq!(list.len(), 50);
    let back = NameRegistry::from_names(list.clone());
    assert_eq!(back.len(), 50);
    for n in &list {
        assert!(back.contains(n));
    }
}

#[test]
fn drawn_names_are_all_distinct() {
    let mut sm = SplitMix64::new(1);
    let mut used = NameRegistry::new();
    let mut names: Vec<String> = (0..1023usize).map(|i| draw_nameplate(&mut sm, (i % 4) as u16, &mut used)).collect();
    assert_eq!(used.len(), 1023);
    names.sort();
    names.dedup();
    assert_eq!(names.len(), 1023);
}

#[test]
fn broker_names_are_zero_padded() {
    assert_eq!(broker_name(0), "bot_000");
    assert_eq!(broker_name(7), "bot_007");
    assert_eq!(broker_name(42), "bot_042");
    assert_eq!(broker_name(126), "bot_126");
    assert_eq!(broker_name(1234), "bot_1234");
}

#[test]
fn ticker_nameplates_have_three_to_five_characters() {
    let charset = "ABCDEFGHIJKLMNOPQRSTUVWXYZ0123456789";
    let mut rng = ChaCha8Rng::seed_from_u64(1);
    let mut lens = Vec::new();
    for _ in 0..200 {
        let n = form_ticker_nameplate(&mut rng);
        assert!((3..=5).contains(&n.chars().count()));
        assert!(n.chars().all(|c| charset.contains(c)));
        lens.push(n.len());
    }
    assert!(lens.contains(&3) && lens.contains(&4) && lens.contains(&5));
}

#[test]
fn ticker_spelt_from_positions() {
    assert_eq!(ticker_from_draws(&vec![0, 25, 26, 35]), "AZ09");
    assert_eq!(ticker_from_draws(&vec![]), "");
    assert_eq!(ticker_from_draws(&vec![8, 9, 10]), "IJK");
}

#[test]
fn ticker_nameplates_follow_the_generator() {
    let mut a = ChaCha8Rng::seed_from_u64(9);
    let mut b = ChaCha8Rng::seed_from_u64(9);
    for _ in 0..20 {
        assert_eq!(form_ticker_nameplate(&mut a), form_ticker_nameplate(&mut b));
    }
    assert_eq!(a.get_word_pos(), b.get_word_pos());
}
