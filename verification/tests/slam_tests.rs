use slam::config::SlamConfig;
use slam::ids::SlamId;
use slam::slam::Slam;

fn ids_of(s: &Slam) -> Vec<u64> {
    s.queue.iter().map(|p| p.id).collect()
}

#[test]
fn create_player_assigns_default_rating() {
    let mut s = Slam::new(SlamConfig::new(2, 2));
    let id = s.create_player(42);
    assert_eq!(id.id, 42);
    assert_eq!(s.db.get(&42), Some(&100));
}

#[test]
fn insert_player_overwrites_rating() {
    let mut s = Slam::new(SlamConfig::new(2, 2));
    s.insert_player(7, 350);
    s.insert_player(7, 480);
    assert_eq!(s.db.get(&7), Some(&480));
    assert_eq!(s.db.len(), 1);
}

#[test]
fn insert_player_twice_same_arguments_is_idempotent() {
    let mut once = Slam::new(SlamConfig::new(2, 2));
    once.insert_player(9, 777);
    let mut twice = Slam::new(SlamConfig::new(2, 2));
    twice.insert_player(9, 777);
    twice.insert_player(9, 777);
    assert_eq!(once.db.get(&9), twice.db.get(&9));
    assert_eq!(once.db.len(), twice.db.len());
}

#[test]
fn queued_id_converts_back_to_registered_id() {
    let mut s = Slam::new(SlamConfig::new(2, 2));
    let p = s.insert_player(8, 150);
    let q = s.queue_player(p);
    let back: SlamId = q.into();
    assert_eq!(back.id, 8);
    assert_eq!(SlamId::from(&q).id, 8);
    assert_eq!(q.slam_id().id, 8);
}

#[test]
fn queue_player_appends_and_permits_duplicates() {
    let mut s = Slam::new(SlamConfig::new(2, 2));
    let p = s.insert_player(5, 200);
    s.queue_player(p);
    s.queue_player(p);
    assert_eq!(ids_of(&s), vec![5, 5]);
}

#[test]
fn swap_removal_keeps_exactly_the_other_players() {
    let mut s = Slam::new(SlamConfig::new(2, 2));
    for n in 0..10u64 {
        let p = s.insert_player(n, 100 + n);
        s.queue_player(p);
    }
    // Remove the players standing at positions 2, 5 and 7; any
    // bookkeeping must leave the logical set {0,1,3,4,6,8,9}.
    s.remove_queue_indices(&vec![2, 5, 7]);
    let mut rest = ids_of(&s);
    rest.sort();
    assert_eq!(rest, vec![0, 1, 3, 4, 6, 8, 9]);
    assert_eq!(s.queue.len(), 7);
}

#[test]
fn short_queue_yields_no_match_and_unchanged_queue() {
    let mut s = Slam::new(SlamConfig::new(2, 2));
    for n in 0..3u64 {
        let p = s.insert_player(n, 100);
        s.queue_player(p);
    }
    // Three queued players cannot fill two teams of two, whatever the
    // assignment claims.
    let before = ids_of(&s);
    let r = s.apply_assignment(&vec![0, 1, 0]);
    assert!(r.is_none());
    assert_eq!(ids_of(&s), before);
}

#[test]
fn assignment_violating_closeness_is_rejected() {
    let mut s = Slam::new(SlamConfig::new(2, 2));
    for (n, elo) in [(1u64, 100u64), (2, 120), (3, 900), (4, 910)] {
        let p = s.insert_player(n, elo);
        s.queue_player(p);
    }
    // Teams {100, 900} and {120, 910} pair players far outside the
    // closeness bound of 200.
    let before = ids_of(&s);
    let r = s.apply_assignment(&vec![0, 1, 0, 1]);
    assert!(r.is_none());
    assert_eq!(ids_of(&s), before);
}

#[test]
fn assignment_violating_fairness_band_is_rejected() {
    let mut s = Slam::new(SlamConfig::new(2, 2));
    for (n, elo) in [(1u64, 100u64), (2, 110), (3, 290), (4, 300)] {
        let p = s.insert_player(n, elo);
        s.queue_player(p);
    }
    // Every same-team pair is within 200, but the sums 210 and 590
    // differ by far more than 100.
    let before = ids_of(&s);
    let r = s.apply_assignment(&vec![0, 0, 1, 1]);
    assert!(r.is_none());
    assert_eq!(ids_of(&s), before);
}

#[test]
fn valid_assignment_forms_match_and_removes_players() {
    let mut s = Slam::new(SlamConfig::new(2, 2));
    for (n, elo) in [(1u64, 100u64), (2, 110), (3, 105), (4, 115)] {
        let p = s.insert_player(n, elo);
        s.queue_player(p);
    }
    let r = s.apply_assignment(&vec![0, 1, 1, 0]).expect("assignment is valid");
    assert_eq!(s.queue.len(), 0);
    let g1_ids: Vec<u64> = r.g1().players().iter().map(|p| p.id).collect();
    let g2_ids: Vec<u64> = r.g2().players().iter().map(|p| p.id).collect();
    assert_eq!(g1_ids, vec![1, 4]);
    assert_eq!(g2_ids, vec![2, 3]);
    assert_eq!(r.g1().total_elo(), 215);
    assert_eq!(r.g2().total_elo(), 215);
}

#[test]
fn store_match_indexes_by_content_hash() {
    let mut s = Slam::new(SlamConfig::new(2, 2));
    for (n, elo) in [(1u64, 100u64), (2, 110), (3, 105), (4, 115)] {
        let p = s.insert_player(n, elo);
        s.queue_player(p);
    }
    let m = s.apply_assignment(&vec![0, 1, 1, 0]).expect("assignment is valid");
    let h = m.get_hash();
    s.store_match(m);
    assert!(s.ongoing_matches.contains_key(&h));
    assert_eq!(s.ongoing_matches.len(), 1);
}
