use reddit_analyzer::{acquire_step, Attempt, Rotation, SlotTable};

#[test]
fn every_slot_goes_to_one_holder_at_a_time() {
    let mut table = SlotTable::new(2);
    let mut first = Rotation::new(2);
    let mut second = Rotation::new(2);
    let mut third = Rotation::new(2);
    assert_eq!(acquire_step(&mut table, &mut first), Attempt::Acquired(0));
    assert_eq!(acquire_step(&mut table, &mut second), Attempt::Retry);
    assert_eq!(acquire_step(&mut table, &mut second), Attempt::Acquired(1));
    assert_eq!(table.holders(), 2);
    assert_eq!(acquire_step(&mut table, &mut third), Attempt::Retry);
    assert_eq!(acquire_step(&mut table, &mut third), Attempt::Backoff);
    assert_eq!(table.holders(), 2);
    assert_eq!(third.cursor, 0);
    assert_eq!(third.misses, 0);
    table.release(0);
    assert_eq!(table.holders(), 1);
    assert_eq!(acquire_step(&mut table, &mut third), Attempt::Acquired(0));
    assert_eq!(table.holders(), 2);
}

#[test]
fn claims_fail_on_held_slots() {
    let mut table = SlotTable::new(3);
    assert_eq!(table.slots(), 3);
    assert!(table.try_claim(1));
    assert!(!table.try_claim(1));
    assert_eq!(table.holders(), 1);
    table.release(1);
    assert!(table.try_claim(1));
}

#[test]
fn a_single_slot_backs_off_after_each_miss() {
    let mut table = SlotTable::new(1);
    let mut a = Rotation::new(1);
    let mut b = Rotation::new(1);
    assert_eq!(acquire_step(&mut table, &mut a), Attempt::Acquired(0));
    assert_eq!(acquire_step(&mut table, &mut b), Attempt::Backoff);
    assert_eq!(acquire_step(&mut table, &mut b), Attempt::Backoff);
}

#[test]
fn a_round_tries_every_slot_before_waiting() {
    let mut table = SlotTable::new(3);
    for i in 0..3 {
        assert!(table.try_claim(i));
    }
    let mut r = Rotation::new(3);
    r.cursor = 1;
    let mut tried = vec![r.cursor];
    assert_eq!(acquire_step(&mut table, &mut r), Attempt::Retry);
    tried.push(r.cursor);
    assert_eq!(acquire_step(&mut table, &mut r), Attempt::Retry);
    tried.push(r.cursor);
    assert_eq!(acquire_step(&mut table, &mut r), Attempt::Backoff);
    tried.sort();
    assert_eq!(tried, vec![0, 1, 2]);
    assert_eq!(r.cursor, 1);
    table.release(2);
    assert_eq!(acquire_step(&mut table, &mut r), Attempt::Retry);
    assert_eq!(acquire_step(&mut table, &mut r), Attempt::Acquired(2));
}
