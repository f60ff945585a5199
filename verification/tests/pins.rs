use lockpicking::components::{Lockpick, LockpickState, Pin, PinEntry, PinMarkers, Rise};
use lockpicking::consts::{DROP_NUM_AFTER_FAIL, RISE_NUM, TUMBLERS, UNLOCKED_BY_DEFAULT_NUM};
use lockpicking::events::{CheckWin, TriggerPin, TryUnlockPin};
use lockpicking::rules::{
    apply_auto_attempt, apply_missed_pick, excluded_from_drop, finish_drop, finish_rise,
    has_moving_pin, initial_pins, initial_pins_from, is_lock_open, lock_pin_target, missed_pick,
    random_attemp, resolve_pick, rise_target, set_pin, trigger_lockpick, trigger_pin, AutoAttemptOutcome,
    KeyPresses, LockpickLoss, PickOutcome, PickZone, PlayerLockpicks,
};
use lockpicking::utils::{candidates, first_indexes, random_indexes};
use std::collections::HashSet;

fn markers(locked: bool, unlocked: bool, by_default: bool, triggered: bool, dropping: bool) -> PinMarkers {
    PinMarkers { locked, unlocked, unlocked_by_default: by_default, triggered, dropping }
}

fn locked() -> PinMarkers {
    markers(true, false, false, false, false)
}

fn player_unlocked() -> PinMarkers {
    markers(false, true, false, false, false)
}

fn default_unlocked() -> PinMarkers {
    markers(false, true, true, false, false)
}

fn pin(index: usize, pattern: Vec<Rise>) -> Pin {
    Pin { index, next_rise: 0, pattern }
}

fn entry(index: usize, m: PinMarkers) -> PinEntry {
    PinEntry { pin: pin(index, vec![Rise::Slow, Rise::Fast, Rise::Slow, Rise::Fast]), markers: m }
}

fn lock_of(ms: &[PinMarkers]) -> Vec<PinEntry> {
    ms.iter().enumerate().map(|(i, m)| entry(i, *m)).collect()
}

#[test]
fn new_pin_has_fresh_pattern() {
    let p = Pin::new(3);
    assert_eq!(p.get_index(), 3);
    assert_eq!(p.next_rise, 0);
    assert_eq!(p.pattern.len(), RISE_NUM);
}

#[test]
fn rise_pattern_follows_draws() {
    let pattern = Pin::rise_pattern_from_draws(&vec![true, false, false, true]);
    assert!(matches!(pattern[..], [Rise::Fast, Rise::Slow, Rise::Slow, Rise::Fast]));
    assert!(Pin::rise_pattern_from_draws(&vec![]).is_empty());
}

#[test]
fn rise_patterns_mix_fast_and_slow() {
    let mut fast = 0;
    let mut slow = 0;
    for i in 0..100 {
        for r in Pin::new(i).pattern {
            match r {
                Rise::Fast => fast += 1,
                Rise::Slow => slow += 1,
            }
        }
    }
    assert_eq!(fast + slow, 100 * RISE_NUM);
    assert!(fast > 0 && slow > 0);
}

#[test]
fn inc_next_rise_wraps_around() {
    let mut p = pin(0, vec![Rise::Slow, Rise::Fast, Rise::Fast]);
    assert!(matches!(p.current_rise(), Rise::Slow));
    p.inc_next_rise();
    assert_eq!(p.next_rise, 1);
    assert!(matches!(p.current_rise(), Rise::Fast));
    p.inc_next_rise();
    assert_eq!(p.next_rise, 2);
    p.inc_next_rise();
    assert_eq!(p.next_rise, 0);
    assert!(matches!(p.current_rise(), Rise::Slow));
}

#[test]
fn pattern_cycles_back_after_its_length() {
    let mut p = pin(0, vec![Rise::Slow, Rise::Fast, Rise::Slow, Rise::Fast]);
    p.next_rise = 2;
    for _ in 0..4 {
        p.inc_next_rise();
    }
    assert_eq!(p.next_rise, 2);
    for _ in 0..7 {
        p.inc_next_rise();
    }
    assert_eq!(p.next_rise, (2 + 7) % 4);
}

#[test]
fn candidates_skip_excluded() {
    assert_eq!(candidates(6, &[1, 4, 9]), vec![0, 2, 3, 5]);
    assert_eq!(candidates(0, &[]), Vec::<usize>::new());
    assert_eq!(candidates(3, &[0, 1, 2]), Vec::<usize>::new());
}

#[test]
fn first_indexes_takes_a_prefix() {
    let got = first_indexes(&vec![5, 2, 7, 1], 2);
    assert_eq!(got, HashSet::from([5, 2]));
    let all = first_indexes(&vec![5, 2], 9);
    assert_eq!(all, HashSet::from([5, 2]));
    assert!(first_indexes(&vec![5, 2], 0).is_empty());
}

#[test]
fn random_indexes_respects_bounds() {
    for _ in 0..50 {
        let got = random_indexes(2, 6, &[0, 3]);
        assert_eq!(got.len(), 2);
        for x in &got {
            assert!(*x < 6 && *x != 0 && *x != 3);
        }
    }
    let few = random_indexes(5, 6, &[0, 1, 2, 3]);
    assert_eq!(few, HashSet::from([4, 5]));
    assert!(random_indexes(2, 6, &[0, 1, 2, 3, 4, 5]).is_empty());
}

#[test]
fn random_indexes_is_shuffled() {
    let mut seen = HashSet::new();
    for _ in 0..200 {
        let got = random_indexes(1, 6, &[]);
        seen.extend(got);
    }
    assert!(seen.len() > 1);
}

#[test]
fn trigger_hits_first_pin_not_unlocked() {
    let mut pins = lock_of(&[locked(), player_unlocked(), locked()]);
    assert_eq!(trigger_pin(&mut pins, TriggerPin(2)), Some(2));
    assert_eq!(pins[2].markers, markers(false, false, false, true, false));
    assert_eq!(pins[0].markers, locked());
}

#[test]
fn trigger_misses_unlocked_pin() {
    let mut pins = lock_of(&[locked(), player_unlocked()]);
    assert_eq!(trigger_pin(&mut pins, TriggerPin(1)), None);
    assert_eq!(pins[1].markers, player_unlocked());
    assert_eq!(trigger_pin(&mut pins, TriggerPin(7)), None);
}

#[test]
fn rise_then_drop_relocks_pin() {
    let mut pins = lock_of(&[locked()]);
    trigger_pin(&mut pins, TriggerPin(0));
    finish_rise(&mut pins[0]);
    assert_eq!(pins[0].markers, markers(false, false, false, false, true));
    assert_eq!(pins[0].pin.next_rise, 1);
    finish_drop(&mut pins[0].markers);
    assert_eq!(pins[0].markers, locked());
}

#[test]
fn lock_pin_target_needs_one_active_pin() {
    let rising = markers(false, false, false, true, false);
    let pins = lock_of(&[locked(), rising, player_unlocked()]);
    assert_eq!(lock_pin_target(LockpickState::Up, 1, &pins), Some(1));
    assert_eq!(lock_pin_target(LockpickState::Down, 3, &pins), Some(1));
    assert_eq!(lock_pin_target(LockpickState::Unactive, 1, &pins), None);
    assert_eq!(lock_pin_target(LockpickState::Up, 0, &pins), None);
    let two = lock_of(&[rising, markers(false, false, false, false, true)]);
    assert_eq!(lock_pin_target(LockpickState::Up, 1, &two), None);
    let locked_and_falling = lock_of(&[markers(true, false, false, false, true)]);
    assert_eq!(lock_pin_target(LockpickState::Up, 1, &locked_and_falling), None);
}

#[test]
fn has_moving_pin_sees_rising_and_falling() {
    assert!(!has_moving_pin(&lock_of(&[locked(), player_unlocked()])));
    assert!(has_moving_pin(&lock_of(&[locked(), markers(true, false, false, false, true)])));
    assert!(has_moving_pin(&lock_of(&[markers(false, false, false, true, false)])));
}

#[test]
fn sweet_spot_sets_pin() {
    let rising = markers(false, false, false, true, false);
    let mut pins = lock_of(&[locked(), rising]);
    let mut picks = PlayerLockpicks(5);
    let outcome = resolve_pick(&mut pins, 1, PickZone::SweetSpot, &mut picks);
    assert_eq!(outcome, PickOutcome::Unlocked(CheckWin));
    assert_eq!(pins[1].markers, player_unlocked());
    assert_eq!(pins[1].pin.next_rise, 0);
    assert_eq!(pins[0].markers, locked());
    assert_eq!(picks.0, 5);
}

#[test]
fn too_low_pick_is_ignored() {
    let rising = markers(false, false, false, true, false);
    let mut pins = lock_of(&[rising]);
    let mut picks = PlayerLockpicks(5);
    assert_eq!(resolve_pick(&mut pins, 0, PickZone::TooLow, &mut picks), PickOutcome::Ignored);
    assert_eq!(pins[0].markers, rising);
    assert_eq!(picks.0, 5);
}

#[test]
fn excluded_holds_fixed_pins_and_picked_pin() {
    let rising = markers(false, false, false, true, false);
    let pins = lock_of(&[default_unlocked(), locked(), player_unlocked(), rising]);
    let mut ex = excluded_from_drop(&pins, 3);
    ex.sort();
    assert_eq!(ex, vec![0, 1, 3]);
}

#[test]
fn missed_pick_drops_chosen_unlocked_pins() {
    let rising = markers(false, false, false, true, false);
    let mut pins = lock_of(&[
        default_unlocked(),
        player_unlocked(),
        player_unlocked(),
        rising,
        locked(),
        player_unlocked(),
    ]);
    let mut picks = PlayerLockpicks(3);
    let to_drop = HashSet::from([1, 5, 0, 4]);
    let loss = apply_missed_pick(&mut pins, 3, &to_drop, true, &mut picks);
    assert_eq!(loss, LockpickLoss::Broken);
    assert_eq!(picks.0, 2);
    let shaken = markers(false, false, false, false, true);
    assert_eq!(pins[0].markers, default_unlocked());
    assert_eq!(pins[1].markers, shaken);
    assert_eq!(pins[2].markers, player_unlocked());
    assert_eq!(pins[3].markers, markers(false, false, false, false, true));
    assert_eq!(pins[3].pin.next_rise, 1);
    assert_eq!(pins[4].markers, locked());
    assert_eq!(pins[5].markers, shaken);
}

#[test]
fn missed_pick_lockpick_outcomes() {
    let rising = markers(false, false, false, true, false);
    let mut pins = lock_of(&[rising]);
    let mut picks = PlayerLockpicks(3);
    assert_eq!(apply_missed_pick(&mut pins, 0, &HashSet::new(), false, &mut picks), LockpickLoss::Kept);
    assert_eq!(picks.0, 3);
    let mut pins = lock_of(&[rising]);
    let mut none = PlayerLockpicks(0);
    assert_eq!(apply_missed_pick(&mut pins, 0, &HashSet::new(), true, &mut none), LockpickLoss::NoneLeft);
    assert_eq!(none.0, 0);
}

#[test]
fn random_missed_pick_spares_fixed_pins() {
    for _ in 0..50 {
        let rising = markers(false, false, false, true, false);
        let mut pins = lock_of(&[
            default_unlocked(),
            player_unlocked(),
            player_unlocked(),
            rising,
            player_unlocked(),
            locked(),
        ]);
        let mut picks = PlayerLockpicks(10);
        let outcome = resolve_pick(&mut pins, 3, PickZone::Miss, &mut picks);
        assert!(matches!(outcome, PickOutcome::Missed(LockpickLoss::Kept | LockpickLoss::Broken)));
        assert!(picks.0 == 10 || picks.0 == 9);
        assert_eq!(pins[0].markers, default_unlocked());
        assert_eq!(pins[5].markers, locked());
        let dropped = [1, 2, 4].iter().filter(|&&i| pins[i].markers.dropping).count();
        assert_eq!(dropped, DROP_NUM_AFTER_FAIL);
        let outcome2 = missed_pick(&mut lock_of(&[rising]), 0, &mut picks);
        assert!(matches!(outcome2, LockpickLoss::Kept | LockpickLoss::Broken));
    }
}

#[test]
fn auto_attempt_success_opens_lock() {
    let mut pins = initial_pins();
    let mut picks = PlayerLockpicks(4);
    assert!(!is_lock_open(&pins));
    let outcome = apply_auto_attempt(&mut pins, &mut picks, true);
    assert_eq!(outcome, AutoAttemptOutcome::Opened(CheckWin));
    assert!(pins.iter().all(|p| p.markers.unlocked));
    assert!(is_lock_open(&pins));
    assert_eq!(picks.0, 4);
}

#[test]
fn auto_attempt_failure_breaks_lockpick() {
    let mut pins = lock_of(&[locked(), markers(false, false, false, false, true)]);
    let mut picks = PlayerLockpicks(4);
    let outcome = apply_auto_attempt(&mut pins, &mut picks, false);
    assert_eq!(outcome, AutoAttemptOutcome::Failed(LockpickLoss::Broken));
    assert_eq!(picks.0, 3);
    assert_eq!(pins[0].markers, locked());
    let mut empty = PlayerLockpicks(0);
    assert_eq!(apply_auto_attempt(&mut pins, &mut empty, false), AutoAttemptOutcome::Failed(LockpickLoss::NoneLeft));
}

#[test]
fn auto_attempt_random_outcomes() {
    let mut opened = false;
    for _ in 0..400 {
        let mut pins = lock_of(&[locked(), locked()]);
        let mut picks = PlayerLockpicks(1);
        match random_attemp(&mut pins, &mut picks) {
            AutoAttemptOutcome::Opened(CheckWin) => {
                opened = true;
                assert_eq!(picks.0, 1);
                assert!(pins[0].markers.unlocked && pins[1].markers.unlocked);
            }
            AutoAttemptOutcome::Failed(loss) => {
                assert_eq!(loss, LockpickLoss::Broken);
                assert_eq!(picks.0, 0);
                assert_eq!(pins[0].markers, locked());
            }
        }
    }
    assert!(opened);
}

#[test]
fn lock_opens_only_with_all_pins_unlocked() {
    let mut ms = vec![player_unlocked(); TUMBLERS];
    assert!(is_lock_open(&lock_of(&ms)));
    ms[4] = locked();
    assert!(!is_lock_open(&lock_of(&ms)));
    ms[4] = markers(true, true, false, false, true);
    assert!(is_lock_open(&lock_of(&ms)));
}

#[test]
fn setting_last_pin_opens_lock() {
    let mut ms = vec![player_unlocked(); TUMBLERS];
    ms[2] = markers(false, false, false, true, false);
    let mut pins = lock_of(&ms);
    assert!(!is_lock_open(&pins));
    set_pin(&mut pins, 2);
    assert!(is_lock_open(&pins));
}

#[test]
fn initial_layout_from_defaults() {
    let pins = initial_pins_from(&HashSet::from([1, 4]));
    assert_eq!(pins.len(), TUMBLERS);
    for (i, p) in pins.iter().enumerate() {
        assert_eq!(p.pin.index, i);
        assert_eq!(p.pin.next_rise, 0);
        assert_eq!(p.pin.pattern.len(), RISE_NUM);
        if i == 1 || i == 4 {
            assert_eq!(p.markers, default_unlocked());
        } else {
            assert_eq!(p.markers, locked());
        }
    }
}

#[test]
fn initial_pins_has_two_default_pins() {
    for _ in 0..20 {
        let pins = initial_pins();
        assert_eq!(pins.len(), TUMBLERS);
        let defaults = pins.iter().filter(|p| p.markers.unlocked_by_default).count();
        assert_eq!(defaults, UNLOCKED_BY_DEFAULT_NUM);
        assert!(!is_lock_open(&pins));
    }
}

fn keys(up: bool, left: bool, right: bool) -> KeyPresses {
    KeyPresses { up, left, right }
}

#[test]
fn lockpick_moves_within_lock() {
    let mut lp = Lockpick { current_position: 0 };
    let c = trigger_lockpick(&mut lp, keys(false, true, false), true);
    assert!(c.moved);
    assert_eq!(lp.current_position, 0);
    let c = trigger_lockpick(&mut lp, keys(false, false, true), true);
    assert!(c.moved && !c.enter_up);
    assert_eq!(lp.current_position, 1);
    lp.current_position = 5;
    trigger_lockpick(&mut lp, keys(false, false, true), true);
    assert_eq!(lp.current_position, 5);
    trigger_lockpick(&mut lp, keys(false, true, true), true);
    assert_eq!(lp.current_position, 5);
    trigger_lockpick(&mut lp, keys(false, true, false), true);
    assert_eq!(lp.current_position, 4);
}

#[test]
fn lockpick_up_triggers_or_picks() {
    let mut lp = Lockpick { current_position: 3 };
    let c = trigger_lockpick(&mut lp, keys(true, false, false), true);
    assert!(c.enter_up);
    assert_eq!(c.trigger, Some(TriggerPin(3)));
    assert_eq!(c.try_unlock, None);
    let c = trigger_lockpick(&mut lp, keys(true, true, false), false);
    assert_eq!(c.trigger, None);
    assert_eq!(c.try_unlock, Some(TryUnlockPin));
    assert!(!c.moved);
    assert_eq!(lp.current_position, 3);
}

#[test]
fn lose_one_lockpick() {
    let mut picks = PlayerLockpicks(1);
    assert_eq!(picks.lose_one(), LockpickLoss::Broken);
    assert_eq!(picks.0, 0);
    assert_eq!(picks.lose_one(), LockpickLoss::NoneLeft);
    assert_eq!(picks.0, 0);
}

#[test]
fn triggered_pin_from_rest_is_picked() {
    let mut pins = lock_of(&[locked(), default_unlocked(), locked(), player_unlocked()]);
    assert!(!has_moving_pin(&pins));
    assert_eq!(trigger_pin(&mut pins, TriggerPin(2)), Some(2));
    assert!(has_moving_pin(&pins));
    assert_eq!(lock_pin_target(LockpickState::Up, 1, &pins), Some(2));
}

#[test]
fn missed_pick_drops_both_candidates() {
    for _ in 0..30 {
        let rising = markers(false, false, false, true, false);
        let mut pins = lock_of(&[
            player_unlocked(),
            default_unlocked(),
            rising,
            player_unlocked(),
            locked(),
            default_unlocked(),
        ]);
        pins[2].pin.next_rise = 3;
        let mut picks = PlayerLockpicks(100);
        let outcome = resolve_pick(&mut pins, 2, PickZone::Miss, &mut picks);
        let shaken = markers(false, false, false, false, true);
        assert_eq!(pins[0].markers, shaken);
        assert_eq!(pins[3].markers, shaken);
        assert_eq!(pins[1].markers, default_unlocked());
        assert_eq!(pins[4].markers, locked());
        assert_eq!(pins[5].markers, default_unlocked());
        assert_eq!(pins[2].markers, shaken);
        assert_eq!(pins[2].pin.next_rise, 0);
        match outcome {
            PickOutcome::Missed(LockpickLoss::Kept) => assert_eq!(picks.0, 100),
            PickOutcome::Missed(LockpickLoss::Broken) => assert_eq!(picks.0, 99),
            other => panic!("unexpected outcome {other:?}"),
        }
    }
}

#[test]
fn missed_pick_drops_two_of_three() {
    for _ in 0..30 {
        let rising = markers(false, false, false, true, false);
        let mut pins = lock_of(&[
            player_unlocked(),
            player_unlocked(),
            rising,
            player_unlocked(),
            locked(),
            default_unlocked(),
        ]);
        let mut picks = PlayerLockpicks(100);
        resolve_pick(&mut pins, 2, PickZone::Miss, &mut picks);
        let dropped = [0, 1, 3].iter().filter(|&&i| !pins[i].markers.unlocked).count();
        assert_eq!(dropped, DROP_NUM_AFTER_FAIL);
    }
}

#[test]
fn rise_target_needs_exactly_one_rising_pin() {
    let rising = markers(false, false, false, true, false);
    assert_eq!(rise_target(&lock_of(&[locked(), rising, player_unlocked()])), Some(1));
    assert_eq!(rise_target(&lock_of(&[locked(), player_unlocked()])), None);
    assert_eq!(rise_target(&lock_of(&[rising, locked(), rising])), None);
    let locked_and_rising = markers(true, false, false, true, false);
    assert_eq!(rise_target(&lock_of(&[locked_and_rising])), Some(0));
}

#[test]
fn missed_pick_drops_exactly_in_any_order() {
    for _ in 0..30 {
        let rising = markers(false, false, false, true, false);
        // Pins listed out of index order: indexes 4, 0, 5, 2, 1, 3.
        let layout = [
            (4, player_unlocked()),
            (0, locked()),
            (5, rising),
            (2, player_unlocked()),
            (1, default_unlocked()),
            (3, player_unlocked()),
        ];
        let mut pins: Vec<PinEntry> = layout.iter().map(|(i, m)| entry(*i, *m)).collect();
        let mut picks = PlayerLockpicks(10);
        resolve_pick(&mut pins, 2, PickZone::Miss, &mut picks);
        let fell = [0, 3, 5].iter().filter(|&&k| !pins[k].markers.unlocked).count();
        assert_eq!(fell, DROP_NUM_AFTER_FAIL);
        assert_eq!(pins[1].markers, locked());
        assert_eq!(pins[4].markers, default_unlocked());
    }
}
