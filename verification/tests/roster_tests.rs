use t1xr::roster::Roster;
use t1xr::seed::SplitMix64;

#[test]
fn listing_delisting_and_respawning_keep_names_apart() {
    let mut sm = SplitMix64::new(42);
    let mut roster = Roster::new();
    let mut names: Vec<String> = (0..8usize).map(|i| roster.list_new(&mut sm, (i % 4) as u16)).collect();
    assert_eq!(names[..6].to_vec(), vec!["8S1", "OPLH", "CM9", "CEKE9", "FZL", "RDU5"]);
    assert_eq!(roster.slot_count(), 8);
    assert!((0..8).all(|i| roster.is_alive(i)));
    roster.delist(2);
    assert!(!roster.is_alive(2));
    let mut used = roster.used_list();
    used.sort();
    let mut expect: Vec<String> = names.iter().enumerate().filter(|(i, _)| *i != 2).map(|(_, n)| n.clone()).collect();
    expect.sort();
    assert_eq!(used, expect);
    names[2] = roster.respawn(2, &mut sm, 2);
    assert!(roster.is_alive(2));
    assert_eq!(roster.used_list().len(), 8);
    let mut all = names.clone();
    all.sort();
    all.dedup();
    assert_eq!(all.len(), 8);
}

#[test]
fn restore_keeps_a_save_as_given() {
    let mut sm = SplitMix64::new(5);
    let mut roster = Roster::new();
    let names: Vec<String> = (0..5usize).map(|i| roster.list_new(&mut sm, (i % 4) as u16)).collect();
    roster.delist(1);
    let alive = vec![true, false, true, true, true];
    let back = Roster::restore(names.clone(), alive.clone(), roster.used_list());
    assert_eq!(back.slot_count(), 5);
    assert!(!back.is_alive(1));
    assert!(back.is_alive(4));
    assert_eq!(back.used_count(), 4);
}

#[test]
fn restore_loads_disagreeing_saves_too() {
    let names = vec!["AAA".to_string(), "BBB".to_string()];
    // a listed name missing from the names in use
    let r = Roster::restore(names.clone(), vec![true, true], vec!["AAA".to_string()]);
    assert_eq!(r.slot_count(), 2);
    assert_eq!(r.used_list(), vec!["AAA".to_string()]);
    // a name in use that no listed slot carries, given twice
    let r = Roster::restore(
        names.clone(),
        vec![true, false],
        vec!["AAA".to_string(), "BBB".to_string(), "BBB".to_string()],
    );
    assert!(r.is_alive(0) && !r.is_alive(1));
    let mut used = r.used_list();
    used.sort();
    assert_eq!(used, vec!["AAA".to_string(), "BBB".to_string()]);
    // two listed slots sharing a name
    let mut r = Roster::restore(vec!["AAA".to_string(), "AAA".to_string()], vec![true, true], vec!["AAA".to_string()]);
    r.delist(0);
    assert_eq!(r.used_count(), 0);
    let mut sm = SplitMix64::new(9);
    let fresh = r.respawn(0, &mut sm, 1);
    assert_ne!(fresh, "AAA");
    assert_eq!(r.used_list(), vec![fresh]);
}
