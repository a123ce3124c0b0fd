use reclipsis::action::ActionState;
use reclipsis::history::InputHistory;
use reclipsis::history::MAX_RETENTION;
use reclipsis::scalar::Scalar;

fn input(x: f32, y: f32, facing: f32, jump: bool, equip: Option<u8>) -> ActionState {
    ActionState {
        move_x: Scalar::from_bits(x.to_bits()),
        move_y: Scalar::from_bits(y.to_bits()),
        facing: Scalar::from_bits(facing.to_bits()),
        jump,
        equip,
    }
}

fn forward() -> ActionState {
    input(0.0, 1.0, 0.0, false, None)
}

fn left_jump() -> ActionState {
    input(-1.0, 0.0, 1.5, true, Some(3))
}

fn back() -> ActionState {
    input(0.0, -0.5, -2.0, false, Some(0))
}

#[test]
fn fallback_lookup_returns_newest_entry_not_after_the_tick() {
    let mut h = InputHistory::new(64).unwrap();
    assert!(h.record(5, forward()));
    assert!(h.record(9, left_jump()));
    assert_eq!(h.lookup(7), Some(forward()));
    assert_eq!(h.lookup(9), Some(left_jump()));
    assert_eq!(h.lookup(3), None);
}

#[test]
fn lookup_on_every_tick_between_two_entries() {
    let mut h = InputHistory::new(64).unwrap();
    h.record(5, forward());
    h.record(9, left_jump());
    assert_eq!(h.lookup(4), None);
    assert_eq!(h.lookup(5), Some(forward()));
    assert_eq!(h.lookup(6), Some(forward()));
    assert_eq!(h.lookup(8), Some(forward()));
    assert_eq!(h.lookup(10), Some(left_jump()));
    assert_eq!(h.lookup(1_000_000), Some(left_jump()));
    assert_eq!(h.lookup(u64::MAX), Some(left_jump()));
    assert_eq!(h.lookup(0), None);
}

#[test]
fn empty_history_has_no_input_for_any_tick() {
    let h = InputHistory::new(8).unwrap();
    assert!(h.is_empty());
    assert_eq!(h.lookup(0), None);
    assert_eq!(h.lookup(77), None);
    assert_eq!(h.latest(), None);
}

#[test]
fn new_accepts_only_retentions_it_can_keep() {
    assert!(InputHistory::new(0).is_none());
    assert!(InputHistory::new(1).is_some());
    assert!(InputHistory::new(MAX_RETENTION).is_some());
    assert!(InputHistory::new(MAX_RETENTION + 1).is_none());
    assert!(InputHistory::new(u16::MAX).is_none());
    assert_eq!(InputHistory::new(17).unwrap().retention(), 17);
    assert_eq!(MAX_RETENTION, 32766);
}

#[test]
fn record_overwrites_the_entry_of_its_tick() {
    let mut h = InputHistory::new(64).unwrap();
    h.record(5, forward());
    h.record(9, left_jump());
    assert!(h.record(5, back()));
    assert_eq!(h.lookup(5), Some(back()));
    assert_eq!(h.lookup(8), Some(back()));
    assert_eq!(h.lookup(9), Some(left_jump()));
    assert!(h.record(7, forward()));
    assert_eq!(h.lookup(6), Some(back()));
    assert_eq!(h.lookup(7), Some(forward()));
    assert_eq!(h.lookup(8), Some(forward()));
    assert_eq!(h.lookup(9), Some(left_jump()));
}

#[test]
fn recording_twice_is_recording_once() {
    let mut once = InputHistory::new(64).unwrap();
    let mut twice = InputHistory::new(64).unwrap();
    once.record(5, forward());
    once.record(9, left_jump());
    twice.record(5, forward());
    twice.record(9, left_jump());
    twice.record(9, left_jump());
    twice.record(5, forward());
    for tick in 0..20u64 {
        assert_eq!(once.lookup(tick), twice.lookup(tick));
    }
    assert_eq!(once.latest(), twice.latest());
}

#[test]
fn an_entry_equal_to_the_one_before_it_is_an_entry_of_its_own() {
    let mut h = InputHistory::new(64).unwrap();
    h.record(5, forward());
    h.record(6, forward());
    h.record(5, back());
    assert_eq!(h.lookup(5), Some(back()));
    assert_eq!(h.lookup(6), Some(forward()));
    assert_eq!(h.lookup(7), Some(forward()));
}

#[test]
fn a_tick_before_the_oldest_entry_is_stored_while_it_is_within_the_retention() {
    let mut h = InputHistory::new(8).unwrap();
    h.record(15, forward());
    h.record(19, left_jump());
    // Ticks 12 to 19 are kept.
    assert!(h.record(12, back()));
    assert_eq!(h.lookup(11), None);
    assert_eq!(h.lookup(12), Some(back()));
    assert_eq!(h.lookup(13), Some(back()));
    assert_eq!(h.lookup(14), Some(back()));
    assert_eq!(h.lookup(15), Some(forward()));
    assert_eq!(h.lookup(18), Some(forward()));
    assert_eq!(h.lookup(19), Some(left_jump()));
    assert_eq!(h.latest(), Some((19, left_jump())));
    assert!(h.record(14, left_jump()));
    assert_eq!(h.lookup(13), Some(back()));
    assert_eq!(h.lookup(14), Some(left_jump()));
    assert_eq!(h.lookup(15), Some(forward()));
}

#[test]
fn a_tick_before_the_retention_is_not_stored() {
    let mut h = InputHistory::new(8).unwrap();
    h.record(15, forward());
    h.record(19, left_jump());
    assert!(!h.record(11, back()));
    assert!(!h.record(0, back()));
    assert_eq!(h.lookup(11), None);
    assert_eq!(h.lookup(14), None);
    assert_eq!(h.lookup(15), Some(forward()));
    assert_eq!(h.lookup(19), Some(left_jump()));
    assert_eq!(h.latest(), Some((19, left_jump())));
}

#[test]
fn inputs_recorded_newest_first_are_found_like_any_others() {
    let mut h = InputHistory::new(64).unwrap();
    assert!(h.record(9, left_jump()));
    assert!(h.record(5, forward()));
    assert!(h.record(7, back()));
    assert!(h.record(4, back()));
    assert_eq!(h.lookup(3), None);
    assert_eq!(h.lookup(4), Some(back()));
    assert_eq!(h.lookup(5), Some(forward()));
    assert_eq!(h.lookup(6), Some(forward()));
    assert_eq!(h.lookup(7), Some(back()));
    assert_eq!(h.lookup(8), Some(back()));
    assert_eq!(h.lookup(9), Some(left_jump()));
    assert_eq!(h.latest(), Some((9, left_jump())));
}

#[test]
fn a_tick_before_the_oldest_entry_across_the_seam_of_the_tick_circle() {
    let mut h = InputHistory::new(100).unwrap();
    h.record(65_540, left_jump());
    assert!(h.record(65_530, forward()));
    assert_eq!(h.lookup(65_529), None);
    assert_eq!(h.lookup(65_530), Some(forward()));
    assert_eq!(h.lookup(65_536), Some(forward()));
    assert_eq!(h.lookup(65_539), Some(forward()));
    assert_eq!(h.lookup(65_540), Some(left_jump()));
    assert!(!h.record(65_440, back()));
    assert!(h.record(65_441, back()));
    assert_eq!(h.lookup(65_441), Some(back()));
    assert_eq!(h.lookup(65_529), Some(back()));
}

#[test]
fn latest_is_the_newest_entry_with_its_tick() {
    let mut h = InputHistory::new(64).unwrap();
    h.record(5, forward());
    assert_eq!(h.latest(), Some((5, forward())));
    h.record(9, left_jump());
    assert_eq!(h.latest(), Some((9, left_jump())));
    h.record(7, back());
    assert_eq!(h.latest(), Some((9, left_jump())));
    assert!(!h.is_empty());
}

#[test]
fn recording_past_the_retention_forgets_the_oldest_ticks() {
    let mut h = InputHistory::new(4).unwrap();
    h.record(10, forward());
    h.record(11, left_jump());
    h.record(12, back());
    h.record(13, forward());
    assert_eq!(h.lookup(10), Some(forward()));
    // Tick 15 keeps ticks 12 to 15.
    assert!(h.record(15, left_jump()));
    assert_eq!(h.lookup(10), None);
    assert_eq!(h.lookup(11), None);
    assert_eq!(h.lookup(12), Some(back()));
    assert_eq!(h.lookup(13), Some(forward()));
    assert_eq!(h.lookup(14), Some(forward()));
    assert_eq!(h.lookup(15), Some(left_jump()));
    assert!(!h.record(11, back()));
    assert_eq!(h.retention(), 4);
}

#[test]
fn the_input_active_at_the_new_floor_is_carried_to_it() {
    let mut h = InputHistory::new(4).unwrap();
    h.record(10, forward());
    h.record(11, left_jump());
    // Tick 20 keeps ticks 17 to 20; the input of tick 11 is still the one
    // active at tick 17.
    assert!(h.record(20, back()));
    assert_eq!(h.lookup(16), None);
    assert_eq!(h.lookup(17), Some(left_jump()));
    assert_eq!(h.lookup(19), Some(left_jump()));
    assert_eq!(h.lookup(20), Some(back()));
    assert_eq!(h.latest(), Some((20, back())));
    // Tick 17 is now the oldest entry and can be overwritten.
    assert!(h.record(17, forward()));
    assert_eq!(h.lookup(18), Some(forward()));
}

#[test]
fn retention_of_one_keeps_the_newest_tick_only() {
    let mut h = InputHistory::new(1).unwrap();
    h.record(3, forward());
    h.record(4, left_jump());
    assert_eq!(h.lookup(3), None);
    assert_eq!(h.lookup(4), Some(left_jump()));
    h.record(100, back());
    assert_eq!(h.lookup(99), None);
    assert_eq!(h.lookup(100), Some(back()));
    assert_eq!(h.lookup(101), Some(back()));
}

#[test]
fn forgetting_keeps_every_lookup_from_the_floor_on() {
    let mut h = InputHistory::new(64).unwrap();
    h.record(5, forward());
    h.record(9, left_jump());
    h.record(12, back());
    let before: Vec<Option<ActionState>> = (7..20u64).map(|t| h.lookup(t)).collect();
    h.forget_before(7);
    let after: Vec<Option<ActionState>> = (7..20u64).map(|t| h.lookup(t)).collect();
    assert_eq!(before, after);
    assert_eq!(h.lookup(6), None);
    assert_eq!(h.lookup(5), None);
    assert_eq!(h.lookup(7), Some(forward()));
    assert_eq!(h.retention(), 64);
}

#[test]
fn forgetting_on_an_entry_keeps_that_entry() {
    let mut h = InputHistory::new(64).unwrap();
    h.record(5, forward());
    h.record(9, left_jump());
    h.forget_before(9);
    assert_eq!(h.lookup(8), None);
    assert_eq!(h.lookup(9), Some(left_jump()));
    assert_eq!(h.latest(), Some((9, left_jump())));
}

#[test]
fn forgetting_past_the_newest_entry_keeps_its_input_at_the_floor() {
    let mut h = InputHistory::new(64).unwrap();
    h.record(5, forward());
    h.record(9, left_jump());
    h.forget_before(30);
    assert_eq!(h.lookup(29), None);
    assert_eq!(h.lookup(30), Some(left_jump()));
    assert_eq!(h.lookup(31), Some(left_jump()));
    assert_eq!(h.latest(), Some((30, left_jump())));
    h.forget_before(10);
    assert_eq!(h.lookup(30), Some(left_jump()));
    assert_eq!(h.lookup(29), None);
}

#[test]
fn forgetting_below_the_oldest_entry_changes_nothing() {
    let mut h = InputHistory::new(64).unwrap();
    h.forget_before(100);
    assert!(h.is_empty());
    h.record(5, forward());
    h.forget_before(5);
    h.forget_before(0);
    assert_eq!(h.lookup(5), Some(forward()));
    assert_eq!(h.lookup(4), None);
}

#[test]
fn ticks_are_told_apart_across_the_sixteen_bit_circle() {
    let mut h = InputHistory::new(100).unwrap();
    h.record(65_530, forward());
    h.record(65_540, left_jump());
    assert_eq!(h.lookup(65_529), None);
    assert_eq!(h.lookup(65_535), Some(forward()));
    assert_eq!(h.lookup(65_536), Some(forward()));
    assert_eq!(h.lookup(65_539), Some(forward()));
    assert_eq!(h.lookup(65_540), Some(left_jump()));
    // Ticks that agree with recorded ones in their low sixteen bits only.
    assert_eq!(h.lookup(4), None);
    assert_eq!(h.lookup(65_540 + 65_536), Some(left_jump()));
    assert!(!h.record(65_540 - 65_536, back()));
    // A leap of many circles.
    assert!(h.record(10_000_000, back()));
    assert_eq!(h.lookup(10_000_000 - 100), None);
    assert_eq!(h.lookup(10_000_000 - 99), Some(left_jump()));
    assert_eq!(h.lookup(10_000_000), Some(back()));
}

#[test]
fn the_longest_retention_is_kept_in_full() {
    let mut h = InputHistory::new(MAX_RETENTION).unwrap();
    h.record(1, forward());
    assert!(h.record(MAX_RETENTION as u64, left_jump()));
    assert_eq!(h.lookup(1), Some(forward()));
    assert_eq!(h.lookup(20_000), Some(forward()));
    assert_eq!(h.lookup(MAX_RETENTION as u64), Some(left_jump()));
    assert!(h.record(MAX_RETENTION as u64 + 1, back()));
    assert_eq!(h.lookup(1), None);
    assert_eq!(h.lookup(2), Some(forward()));
    assert_eq!(h.lookup(MAX_RETENTION as u64 + 1), Some(back()));
}

#[test]
fn the_last_tick_there_is_can_be_recorded() {
    let mut h = InputHistory::new(8).unwrap();
    h.record(u64::MAX - 9, forward());
    assert!(h.record(u64::MAX, left_jump()));
    assert_eq!(h.lookup(u64::MAX - 8), None);
    assert_eq!(h.lookup(u64::MAX - 7), Some(forward()));
    assert_eq!(h.lookup(u64::MAX), Some(left_jump()));
    assert_eq!(h.latest(), Some((u64::MAX, left_jump())));
}

#[test]
fn the_longest_retention_reaches_back_in_full() {
    let mut h = InputHistory::new(MAX_RETENTION).unwrap();
    h.record(40_000, left_jump());
    assert!(!h.record(40_000 - MAX_RETENTION as u64, back()));
    assert!(h.record(40_001 - MAX_RETENTION as u64, forward()));
    assert_eq!(h.lookup(40_000 - MAX_RETENTION as u64), None);
    assert_eq!(h.lookup(40_001 - MAX_RETENTION as u64), Some(forward()));
    assert_eq!(h.lookup(39_999), Some(forward()));
    assert_eq!(h.lookup(40_000), Some(left_jump()));
    assert_eq!(h.latest(), Some((40_000, left_jump())));
    // One tick further on, the oldest tick falls out.
    assert!(h.record(40_001, back()));
    assert_eq!(h.lookup(40_001 - MAX_RETENTION as u64), None);
    assert_eq!(h.lookup(40_002 - MAX_RETENTION as u64), Some(forward()));
}
