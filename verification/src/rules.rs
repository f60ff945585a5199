//! The decisions of the game: which pin the lockpick triggers, what a pick
//! does, what an automatic attempt does, when the lock is open, how the lockpick
//! moves, and how the lock is laid out at the start.
use std::collections::HashSet;
use vstd::prelude::*;

use crate::components::{rise_step, Lockpick, LockpickState, Pin, PinEntry, PinMarkers};
use crate::consts::{
    AUTO_ATTEMPT_CHANCE_DENOMINATOR, AUTO_ATTEMPT_CHANCE_NUMERATOR, DROP_NUM_AFTER_FAIL,
    LOCKPICK_LOSS_CHANCE_DENOMINATOR, LOCKPICK_LOSS_CHANCE_NUMERATOR, RISE_NUM, TUMBLERS,
    UNLOCKED_BY_DEFAULT_NUM,
};
use crate::events::{CheckWin, TriggerPin, TryUnlockPin};
use crate::random::{chance, Draw, Shuffle};
use crate::utils::{candidate_indexes, lemma_candidate_indexes, min_nat, random_indexes};

verus! {

broadcast use vstd::std_specs::hash::group_hash_axioms;

// ---------------------------------------------------------------------------
// Marker changes
// ---------------------------------------------------------------------------

/// The markers of a pin that the lockpick has just hit: no longer locked, rising.
pub open spec fn marks_triggered(m: PinMarkers) -> PinMarkers {
    PinMarkers { locked: false, triggered: true, ..m }
}

/// The markers of a pin that starts to fall: falling, no longer rising.
pub open spec fn marks_falling(m: PinMarkers) -> PinMarkers {
    PinMarkers { dropping: true, triggered: false, ..m }
}

/// The markers of a pin that has fallen to the bottom: locked, no longer falling.
pub open spec fn marks_fallen(m: PinMarkers) -> PinMarkers {
    PinMarkers { dropping: false, locked: true, ..m }
}

/// The markers of a pin that a pick has set: unlocked, neither rising nor falling.
pub open spec fn marks_set(m: PinMarkers) -> PinMarkers {
    PinMarkers { unlocked: true, dropping: false, triggered: false, ..m }
}

/// The markers of an unlocked pin that a missed pick shakes loose: falling, no
/// longer unlocked.
pub open spec fn marks_shaken_loose(m: PinMarkers) -> PinMarkers {
    PinMarkers { dropping: true, unlocked: false, ..m }
}

/// The markers of a pin after an automatic attempt opened the lock: unlocked.
pub open spec fn marks_forced_open(m: PinMarkers) -> PinMarkers {
    PinMarkers { unlocked: true, ..m }
}

/// The markers of a pin that starts the game unlocked.
pub open spec fn default_unlocked_markers() -> PinMarkers {
    PinMarkers {
        locked: false,
        unlocked: true,
        unlocked_by_default: true,
        triggered: false,
        dropping: false,
    }
}

/// The markers of a pin that starts the game locked.
pub open spec fn locked_markers() -> PinMarkers {
    PinMarkers {
        locked: true,
        unlocked: false,
        unlocked_by_default: false,
        triggered: false,
        dropping: false,
    }
}

/// The same pin, with other markers.
pub open spec fn with_markers(e: PinEntry, m: PinMarkers) -> PinEntry {
    PinEntry { pin: e.pin, markers: m }
}

// ---------------------------------------------------------------------------
// Lockpicks
// ---------------------------------------------------------------------------

/// How many lockpicks the player has left.
pub struct PlayerLockpicks(pub u32);

/// What became of the lockpicks after a failure.
#[derive(Debug, Clone, Copy, PartialEq, Eq, Structural)]
pub enum LockpickLoss {
    /// No lockpick broke.
    Kept,
    /// One lockpick broke.
    Broken,
    /// A lockpick should have broken, but none was left.
    NoneLeft,
}

impl PlayerLockpicks {
    /// Breaks one lockpick, when one is left.
    pub fn lose_one(&mut self) -> (loss: LockpickLoss)
        ensures
            old(self).0 > 0 ==> loss == LockpickLoss::Broken && final(self).0 == old(self).0 - 1,
            old(self).0 == 0 ==> loss == LockpickLoss::NoneLeft && final(self).0 == 0,
    {
        if self.0 > 0 {
            self.0 = self.0 - 1;
            LockpickLoss::Broken
        } else {
            LockpickLoss::NoneLeft
        }
    }
}

/// The lockpick count after a failure that breaks one lockpick when `breaks` holds.
pub open spec fn lockpicks_after(count: u32, breaks: bool) -> u32 {
    if breaks && count > 0 {
        (count - 1) as u32
    } else {
        count
    }
}

/// What the failure reports about the lockpicks.
pub open spec fn loss_after(count: u32, breaks: bool) -> LockpickLoss {
    if !breaks {
        LockpickLoss::Kept
    } else if count > 0 {
        LockpickLoss::Broken
    } else {
        LockpickLoss::NoneLeft
    }
}

// ---------------------------------------------------------------------------
// Triggering a pin
// ---------------------------------------------------------------------------

/// A pin that a trigger request for `target` can hit: at that index, and not unlocked.
pub open spec fn can_trigger(e: PinEntry, target: usize) -> bool {
    e.pin.index == target && !e.markers.unlocked
}

/// Hits the first pin, in the order given, that sits at the requested index and
/// is not unlocked, and returns its position in `pins`; leaves everything
/// unchanged and returns `None` when there is none.
pub fn trigger_pin(pins: &mut Vec<PinEntry>, request: TriggerPin) -> (hit: Option<usize>)
    ensures
        final(pins)@.len() == old(pins)@.len(),
        match hit {
            Some(k) => {
                &&& k < old(pins)@.len()
                &&& can_trigger(old(pins)@[k as int], request.0)
                &&& forall|j: int| 0 <= j < k ==> !can_trigger(#[trigger] old(pins)@[j], request.0)
                &&& final(pins)@ == old(pins)@.update(
                    k as int,
                    with_markers(old(pins)@[k as int], marks_triggered(old(pins)@[k as int].markers)),
                )
            },
            None => {
                &&& forall|j: int|
                    0 <= j < old(pins)@.len() ==> !can_trigger(#[trigger] old(pins)@[j], request.0)
                &&& final(pins)@ == old(pins)@
            },
        },
        hit matches Some(k) ==> old(pins)@[k as int].pin.index == request.0
            && !old(pins)@[k as int].markers.unlocked && final(pins)@[k as int].markers.triggered
            && !final(pins)@[k as int].markers.locked
            && !final(pins)@[k as int].markers.unlocked,
        hit is None ==> forall|j: int|
            0 <= j < old(pins)@.len() && (#[trigger] old(pins)@[j]).pin.index == request.0
                ==> old(pins)@[j].markers.unlocked,
        forall|j: int|
            0 <= j < old(pins)@.len() && (#[trigger] old(pins)@[j]).markers.unlocked ==> final(pins)@[j] == old(pins)@[j],
{
    let mut k: usize = 0;
    while k < pins.len()
        invariant
            k <= pins@.len(),
            pins@ == old(pins)@,
            forall|j: int| 0 <= j < k ==> !can_trigger(#[trigger] pins@[j], request.0),
        decreases pins@.len() - k,
    {
        if pins[k].pin.index == request.0 && !pins[k].markers.unlocked {
            let old_markers = pins[k].markers;
            pins[k].markers = PinMarkers { locked: false, triggered: true, ..old_markers };
            return Some(k);
        }
        k += 1;
    }
    None
}

// ---------------------------------------------------------------------------
// Rising and falling
// ---------------------------------------------------------------------------

/// `k` is the only pin that is rising.
pub open spec fn is_only_triggered(pins: Seq<PinEntry>, k: int) -> bool {
    &&& 0 <= k < pins.len()
    &&& pins[k].markers.triggered
    &&& forall|j: int| 0 <= j < pins.len() && j != k ==> !(#[trigger] pins[j]).markers.triggered
}

/// The pin whose rise is timed: only when exactly one pin is triggered.
pub fn rise_target(pins: &Vec<PinEntry>) -> (target: Option<usize>)
    ensures
        match target {
            Some(k) => is_only_triggered(pins@, k as int),
            None => forall|k: int| !is_only_triggered(pins@, k),
        },
{
    let mut found: Option<usize> = None;
    let mut j: usize = 0;
    while j < pins.len()
        invariant
            j <= pins@.len(),
            match found {
                Some(k) => k < j && pins@[k as int].markers.triggered && forall|i: int|
                    0 <= i < j && i != k ==> !(#[trigger] pins@[i]).markers.triggered,
                None => forall|i: int| 0 <= i < j ==> !(#[trigger] pins@[i]).markers.triggered,
            },
        decreases pins@.len() - j,
    {
        if pins[j].markers.triggered {
            match found {
                Some(k) => {
                    assert forall|i: int| !is_only_triggered(pins@, i) by {
                        if is_only_triggered(pins@, i) {
                            if i != k {
                                assert(pins@[k as int].markers.triggered);
                            } else {
                                assert(pins@[j as int].markers.triggered);
                            }
                        }
                    }
                    return None;
                },
                None => {
                    found = Some(j);
                },
            }
        }
        j += 1;
    }
    match found {
        Some(k) => {},
        None => {
            assert forall|i: int| !is_only_triggered(pins@, i) by {
                if is_only_triggered(pins@, i) {
                    assert(pins@[i].markers.triggered);
                }
            }
        },
    }
    found
}

/// A triggered pin has reached the top and its time is up: it moves on to the
/// next rise of its pattern and starts to fall.
pub fn finish_rise(entry: &mut PinEntry)
    requires
        old(entry).pin.next_rise < usize::MAX,
    ensures
        final(entry).markers == marks_falling(old(entry).markers),
        final(entry).pin.index == old(entry).pin.index,
        final(entry).pin.pattern@ == old(entry).pin.pattern@,
        final(entry).pin.next_rise == rise_step(
            old(entry).pin.next_rise as int,
            old(entry).pin.pattern@.len() as int,
        ),
{
    entry.pin.inc_next_rise();
    let m = entry.markers;
    entry.markers = PinMarkers { dropping: true, triggered: false, ..m };
}

/// A falling pin has reached the bottom: it is locked again.
pub fn finish_drop(markers: &mut PinMarkers)
    ensures
        *final(markers) == marks_fallen(*old(markers)),
{
    let m = *markers;
    *markers = PinMarkers { dropping: false, locked: true, ..m };
}

// ---------------------------------------------------------------------------
// Picking
// ---------------------------------------------------------------------------

/// A pin that is rising or falling, whatever its other markers.
pub open spec fn is_moving(m: PinMarkers) -> bool {
    m.triggered || m.dropping
}

/// Whether some pin is rising or falling. While one is, the lockpick picks
/// instead of triggering, and does not move sideways.
pub fn has_moving_pin(pins: &Vec<PinEntry>) -> (moving: bool)
    ensures
        moving == exists|j: int| 0 <= j < pins@.len() && is_moving(#[trigger] pins@[j].markers),
{
    let mut j: usize = 0;
    while j < pins.len()
        invariant
            j <= pins@.len(),
            forall|i: int| 0 <= i < j ==> !is_moving(#[trigger] pins@[i].markers),
        decreases pins@.len() - j,
    {
        if pins[j].markers.triggered || pins[j].markers.dropping {
            assert(is_moving(pins@[j as int].markers));
            return true;
        }
        j += 1;
    }
    false
}

/// `k` is the only pin that the lockpick acts on now.
pub open spec fn is_only_active(pins: Seq<PinEntry>, k: int) -> bool {
    &&& 0 <= k < pins.len()
    &&& pins[k].markers.is_active()
    &&& forall|j: int| 0 <= j < pins.len() && j != k ==> !(#[trigger] pins[j].markers).is_active()
}

/// The pin that a pick request acts on: only when the lockpick is moving, at
/// least one request came, and exactly one pin is rising or falling (and not
/// locked).
pub fn lock_pin_target(state: LockpickState, requests: usize, pins: &Vec<PinEntry>) -> (target:
    Option<usize>)
    ensures
        match target {
            Some(k) => state != LockpickState::Unactive && requests > 0 && is_only_active(
                pins@,
                k as int,
            ),
            None => state == LockpickState::Unactive || requests == 0 || forall|k: int|
                !is_only_active(pins@, k),
        },
{
    if state == LockpickState::Unactive {
        return None;
    }
    if requests == 0 {
        return None;
    }
    let mut found: Option<usize> = None;
    let mut j: usize = 0;
    while j < pins.len()
        invariant
            j <= pins@.len(),
            match found {
                Some(k) => k < j && pins@[k as int].markers.is_active() && forall|i: int|
                    0 <= i < j && i != k ==> !(#[trigger] pins@[i].markers).is_active(),
                None => forall|i: int| 0 <= i < j ==> !(#[trigger] pins@[i].markers).is_active(),
            },
        decreases pins@.len() - j,
    {
        let m = pins[j].markers;
        if (m.triggered || m.dropping) && !m.locked {
            match found {
                Some(k) => {
                    assert forall|i: int| !is_only_active(pins@, i) by {
                        if is_only_active(pins@, i) {
                            if i != k {
                                assert(pins@[k as int].markers.is_active());
                            } else {
                                assert(pins@[j as int].markers.is_active());
                            }
                        }
                    }
                    return None;
                },
                None => {
                    found = Some(j);
                },
            }
        }
        j += 1;
    }
    match found {
        Some(k) => {},
        None => {
            assert forall|i: int| !is_only_active(pins@, i) by {
                if is_only_active(pins@, i) {
                    assert(pins@[i].markers.is_active());
                }
            }
        },
    }
    found
}

/// How high the active pin stood when the pick came.
#[derive(Debug, Clone, Copy, PartialEq, Eq, Structural)]
pub enum PickZone {
    /// Too low for the pick to count.
    TooLow,
    /// High enough to be set.
    SweetSpot,
    /// Neither: the pick misses.
    Miss,
}

/// What a pick did.
#[derive(Debug, Clone, Copy, PartialEq, Eq, Structural)]
pub enum PickOutcome {
    /// The pin was too low: nothing happened.
    Ignored,
    /// The pin is set; the lock may now be open.
    Unlocked(CheckWin),
    /// The pin falls, with some unlocked pins, and a lockpick may have broken.
    Missed(LockpickLoss),
}

/// A pin that a missed pick never shakes loose: neither rising nor falling, and
/// unlocked from the start or locked.
pub open spec fn holds_place(m: PinMarkers) -> bool {
    m.is_still() && (m.unlocked_by_default || m.locked)
}

/// The indexes that a missed pick on pin `active` may not shake loose.
pub open spec fn is_excluded_index(pins: Seq<PinEntry>, active: int, x: usize) -> bool {
    x == pins[active].pin.index || exists|j: int|
        0 <= j < pins.len() && holds_place(#[trigger] pins[j].markers) && pins[j].pin.index == x
}

/// The indexes that a missed pick on pin `active` may not shake loose: those of
/// the pins that hold their place, and that of the picked pin.
pub fn excluded_from_drop(pins: &Vec<PinEntry>, active: usize) -> (excluded: Vec<usize>)
    requires
        active < pins@.len(),
    ensures
        forall|x: usize| #[trigger] excluded@.contains(x) <==> is_excluded_index(pins@, active as int, x),
{
    let mut excluded: Vec<usize> = Vec::new();
    let mut j: usize = 0;
    while j < pins.len()
        invariant
            j <= pins@.len(),
            forall|x: usize| #[trigger] excluded@.contains(x) <==> exists|i: int|
                0 <= i < j && holds_place(#[trigger] pins@[i].markers) && pins@[i].pin.index == x,
        decreases pins@.len() - j,
    {
        let m = pins[j].markers;
        if !m.triggered && !m.dropping && (m.unlocked_by_default || m.locked) {
            let ghost prev = excluded@;
            excluded.push(pins[j].pin.index);
            assert forall|x: usize| #[trigger] excluded@.contains(x) <==> exists|i: int|
                0 <= i < j + 1 && holds_place(#[trigger] pins@[i].markers) && pins@[i].pin.index
                    == x by {
                if excluded@.contains(x) {
                    let t = choose|t: int| 0 <= t < excluded@.len() && excluded@[t] == x;
                    if t < prev.len() {
                        assert(prev[t] == x);
                        assert(prev.contains(x));
                    } else {
                        assert(holds_place(pins@[j as int].markers));
                    }
                }
                if exists|i: int|
                    0 <= i < j + 1 && holds_place(#[trigger] pins@[i].markers) && pins@[i].pin.index
                        == x {
                    let i = choose|i: int|
                        0 <= i < j + 1 && holds_place(#[trigger] pins@[i].markers)
                            && pins@[i].pin.index == x;
                    if i < j {
                        assert(prev.contains(x));
                        let t = choose|t: int| 0 <= t < prev.len() && prev[t] == x;
                        assert(excluded@[t] == x);
                    } else {
                        assert(excluded@[prev.len() as int] == x);
                    }
                }
            }
        } else {
            assert forall|x: usize| #[trigger] excluded@.contains(x) <==> exists|i: int|
                0 <= i < j + 1 && holds_place(#[trigger] pins@[i].markers) && pins@[i].pin.index
                    == x by {
                if exists|i: int|
                    0 <= i < j + 1 && holds_place(#[trigger] pins@[i].markers) && pins@[i].pin.index
                        == x {
                    let i = choose|i: int|
                        0 <= i < j + 1 && holds_place(#[trigger] pins@[i].markers)
                            && pins@[i].pin.index == x;
                    assert(i < j);
                }
            }
        }
        j += 1;
    }
    let ghost prev = excluded@;
    excluded.push(pins[active].pin.index);
    assert forall|x: usize| #[trigger] excluded@.contains(x) <==> is_excluded_index(
        pins@,
        active as int,
        x,
    ) by {
        if excluded@.contains(x) {
            let t = choose|t: int| 0 <= t < excluded@.len() && excluded@[t] == x;
            if t < prev.len() {
                assert(prev[t] == x);
                assert(prev.contains(x));
            }
        }
        if is_excluded_index(pins@, active as int, x) {
            if x == pins@[active as int].pin.index {
                assert(excluded@[prev.len() as int] == x);
            } else {
                assert(prev.contains(x));
                let t = choose|t: int| 0 <= t < prev.len() && prev[t] == x;
                assert(excluded@[t] == x);
            }
        }
    }
    excluded
}

/// An unlocked pin that a missed pick shakes loose: unlocked by the player,
/// still, and chosen among the indexes to drop.
pub open spec fn shaken_loose(e: PinEntry, to_drop: Set<usize>) -> bool {
    &&& e.markers.unlocked
    &&& !e.markers.unlocked_by_default
    &&& e.markers.is_still()
    &&& to_drop.contains(e.pin.index)
}

/// The pins after a missed pick on pin `active`, with `to_drop` the indexes
/// chosen to fall: the picked pin falls and moves on to its next rise, the
/// chosen unlocked pins fall, and every other pin stays as it was.
pub open spec fn after_missed_pick(
    before: Seq<PinEntry>,
    after: Seq<PinEntry>,
    active: int,
    to_drop: Set<usize>,
) -> bool {
    &&& after.len() == before.len()
    &&& after[active].markers == marks_falling(before[active].markers)
    &&& after[active].pin.index == before[active].pin.index
    &&& after[active].pin.pattern@ == before[active].pin.pattern@
    &&& after[active].pin.next_rise == rise_step(
        before[active].pin.next_rise as int,
        before[active].pin.pattern@.len() as int,
    )
    &&& forall|j: int|
        0 <= j < before.len() && j != active ==> #[trigger] after[j] == if shaken_loose(
            before[j],
            to_drop,
        ) {
            with_markers(before[j], marks_shaken_loose(before[j].markers))
        } else {
            before[j]
        }
}

/// Applies a missed pick on pin `active`: the unlocked pins (not unlocked from
/// the start, neither rising nor falling) whose index `to_drop` holds start to
/// fall, the picked pin starts to fall and moves on to its next rise, and one
/// lockpick breaks when `breaks` holds.
pub fn apply_missed_pick(
    pins: &mut Vec<PinEntry>,
    active: usize,
    to_drop: &HashSet<usize>,
    breaks: bool,
    lockpicks: &mut PlayerLockpicks,
) -> (loss: LockpickLoss)
    requires
        active < old(pins)@.len(),
        old(pins)@[active as int].markers.is_active(),
        old(pins)@[active as int].pin.next_rise < usize::MAX,
    ensures
        after_missed_pick(old(pins)@, final(pins)@, active as int, to_drop@),
        final(lockpicks).0 == lockpicks_after(old(lockpicks).0, breaks),
        loss == loss_after(old(lockpicks).0, breaks),
{
    let ghost before = pins@;
    let mut j: usize = 0;
    while j < pins.len()
        invariant
            j <= pins@.len(),
            pins@.len() == before.len(),
            active < before.len(),
            before[active as int].markers.is_active(),
            forall|i: int| j <= i < before.len() ==> #[trigger] pins@[i] == before[i],
            forall|i: int|
                0 <= i < j && i != active ==> #[trigger] pins@[i] == if shaken_loose(
                    before[i],
                    to_drop@,
                ) {
                    with_markers(before[i], marks_shaken_loose(before[i].markers))
                } else {
                    before[i]
                },
            active < j ==> pins@[active as int] == before[active as int],
        decreases pins@.len() - j,
    {
        let m = pins[j].markers;
        if m.unlocked && !m.unlocked_by_default && !m.triggered && !m.dropping
            && to_drop.contains(&pins[j].pin.index) {
            pins[j].markers = PinMarkers { dropping: true, unlocked: false, ..m };
        }
        j += 1;
    }
    let m = pins[active].markers;
    pins[active].markers = PinMarkers { dropping: true, triggered: false, ..m };
    pins[active].pin.inc_next_rise();
    if breaks {
        lockpicks.lose_one()
    } else {
        LockpickLoss::Kept
    }
}

/// The indexes of the lock that a missed pick on pin `active` may shake loose:
/// those of no pin that holds its place, other than the picked pin's.
pub open spec fn drop_candidates(pins: Seq<PinEntry>, active: int) -> Set<usize> {
    Set::new(|x: usize| x < TUMBLERS && !is_excluded_index(pins, active, x))
}

/// `to_drop` is a choice of indexes that a missed pick on pin `active` may
/// shake loose: as many of the candidates as `DROP_NUM_AFTER_FAIL`, or all of
/// them when there are fewer.
pub open spec fn is_drop_choice(pins: Seq<PinEntry>, active: int, to_drop: Set<usize>) -> bool {
    &&& to_drop.finite()
    &&& to_drop.subset_of(drop_candidates(pins, active))
    &&& to_drop.len() == min_nat(DROP_NUM_AFTER_FAIL as nat, drop_candidates(pins, active).len())
}

/// A throw that decides whether a missed pick breaks a lockpick: three chances
/// in five.
pub open spec fn is_loss_throw(throw: Draw) -> bool {
    throw.odds() == (LOCKPICK_LOSS_CHANCE_NUMERATOR, LOCKPICK_LOSS_CHANCE_DENOMINATOR)
}

/// A throw that decides whether an automatic attempt opens the lock: one chance
/// in twenty.
pub open spec fn is_attempt_throw(throw: Draw) -> bool {
    throw.odds() == (AUTO_ATTEMPT_CHANCE_NUMERATOR, AUTO_ATTEMPT_CHANCE_DENOMINATOR)
}

/// A missed pick on pin `active`: chooses at random up to `DROP_NUM_AFTER_FAIL`
/// pin indexes among those that may fall, shakes those pins loose, makes the
/// picked pin fall, and breaks a lockpick by chance.
pub fn missed_pick(pins: &mut Vec<PinEntry>, active: usize, lockpicks: &mut PlayerLockpicks) -> (loss:
    LockpickLoss)
    requires
        active < old(pins)@.len(),
        old(pins)@[active as int].markers.is_active(),
        old(pins)@[active as int].pin.next_rise < usize::MAX,
    ensures
        exists|to_drop: Set<usize>|
            {
                &&& is_drop_choice(old(pins)@, active as int, to_drop)
                &&& after_missed_pick(old(pins)@, final(pins)@, active as int, to_drop)
            },
        final(lockpicks).0 == old(lockpicks).0 || final(lockpicks).0 == old(lockpicks).0 - 1,
        loss == LockpickLoss::Kept ==> final(lockpicks).0 == old(lockpicks).0,
        loss == LockpickLoss::Broken ==> final(lockpicks).0 == old(lockpicks).0 - 1,
        loss == LockpickLoss::NoneLeft ==> old(lockpicks).0 == 0 && final(lockpicks).0 == 0,
        exists|throw: Draw|
            {
                &&& is_loss_throw(throw)
                &&& final(lockpicks).0 == lockpicks_after(old(lockpicks).0, throw.outcome())
                &&& loss == loss_after(old(lockpicks).0, throw.outcome())
            },
{
    let excluded = excluded_from_drop(pins, active);
    let to_drop = random_indexes(DROP_NUM_AFTER_FAIL, TUMBLERS, excluded.as_slice());
    let throw = chance(LOCKPICK_LOSS_CHANCE_NUMERATOR, LOCKPICK_LOSS_CHANCE_DENOMINATOR, 0);
    let breaks = throw.hit();
    let loss = apply_missed_pick(pins, active, &to_drop, breaks, lockpicks);
    proof {
        assert(is_loss_throw(throw));
        lemma_candidate_indexes(TUMBLERS as nat, excluded@);
        let cands = candidate_indexes(TUMBLERS as nat, excluded@);
        assert(cands.to_set() =~= drop_candidates(old(pins)@, active as int));
        cands.unique_seq_to_set();
        assert(to_drop@.subset_of(drop_candidates(old(pins)@, active as int)));
        assert(cands.len() == drop_candidates(old(pins)@, active as int).len());
        assert(is_drop_choice(old(pins)@, active as int, to_drop@));
        assert(after_missed_pick(old(pins)@, pins@, active as int, to_drop@));
    }
    loss
}

/// Sets pin `active`: it is unlocked and stops rising or falling.
pub fn set_pin(pins: &mut Vec<PinEntry>, active: usize)
    requires
        active < old(pins)@.len(),
    ensures
        final(pins)@ == old(pins)@.update(
            active as int,
            with_markers(old(pins)@[active as int], marks_set(old(pins)@[active as int].markers)),
        ),
{
    let m = pins[active].markers;
    pins[active].markers = PinMarkers { unlocked: true, dropping: false, triggered: false, ..m };
}

/// A pick on pin `active`, which stood in `zone`: ignored when too low, sets
/// the pin in the sweet spot, and misses otherwise.
pub fn resolve_pick(
    pins: &mut Vec<PinEntry>,
    active: usize,
    zone: PickZone,
    lockpicks: &mut PlayerLockpicks,
) -> (outcome: PickOutcome)
    requires
        active < old(pins)@.len(),
        old(pins)@[active as int].markers.is_active(),
        zone == PickZone::Miss ==> old(pins)@[active as int].pin.next_rise < usize::MAX,
    ensures
        zone == PickZone::TooLow ==> outcome == PickOutcome::Ignored && final(pins)@ == old(pins)@
            && final(lockpicks).0 == old(lockpicks).0,
        zone == PickZone::SweetSpot ==> outcome == PickOutcome::Unlocked(CheckWin) && final(pins)@
            == old(pins)@.update(
            active as int,
            with_markers(old(pins)@[active as int], marks_set(old(pins)@[active as int].markers)),
        ) && final(lockpicks).0 == old(lockpicks).0,
        zone == PickZone::Miss ==> exists|loss: LockpickLoss|
            {
                &&& outcome == PickOutcome::Missed(loss)
                &&& exists|to_drop: Set<usize>|
                    {
                        &&& is_drop_choice(old(pins)@, active as int, to_drop)
                        &&& after_missed_pick(old(pins)@, final(pins)@, active as int, to_drop)
                    }
                &&& loss == LockpickLoss::Kept ==> final(lockpicks).0 == old(lockpicks).0
                &&& loss == LockpickLoss::Broken ==> final(lockpicks).0 == old(lockpicks).0 - 1
                &&& loss == LockpickLoss::NoneLeft ==> old(lockpicks).0 == 0 && final(lockpicks).0
                    == 0
                &&& exists|throw: Draw|
                    {
                        &&& is_loss_throw(throw)
                        &&& final(lockpicks).0 == lockpicks_after(old(lockpicks).0, throw.outcome())
                        &&& loss == loss_after(old(lockpicks).0, throw.outcome())
                    }
            },
{
    match zone {
        PickZone::TooLow => PickOutcome::Ignored,
        PickZone::SweetSpot => {
            set_pin(pins, active);
            PickOutcome::Unlocked(CheckWin)
        },
        PickZone::Miss => {
            let loss = missed_pick(pins, active, lockpicks);
            PickOutcome::Missed(loss)
        },
    }
}

// ---------------------------------------------------------------------------
// Automatic attempt
// ---------------------------------------------------------------------------

/// What an automatic attempt did.
#[derive(Debug, Clone, Copy, PartialEq, Eq, Structural)]
pub enum AutoAttemptOutcome {
    /// Every pin is now unlocked.
    Opened(CheckWin),
    /// Nothing moved, and a lockpick broke (or should have, with none left).
    Failed(LockpickLoss),
}

/// Every pin of `after` is the pin of `before`, now unlocked.
pub open spec fn all_forced_open(before: Seq<PinEntry>, after: Seq<PinEntry>) -> bool {
    &&& after.len() == before.len()
    &&& forall|j: int|
        0 <= j < before.len() ==> #[trigger] after[j] == with_markers(
            before[j],
            marks_forced_open(before[j].markers),
        )
}

/// Applies an automatic attempt that succeeded when `success` holds: then every
/// pin is unlocked; otherwise one lockpick breaks.
pub fn apply_auto_attempt(pins: &mut Vec<PinEntry>, lockpicks: &mut PlayerLockpicks, success: bool) -> (outcome:
    AutoAttemptOutcome)
    ensures
        success ==> {
            &&& outcome == AutoAttemptOutcome::Opened(CheckWin)
            &&& all_forced_open(old(pins)@, final(pins)@)
            &&& final(lockpicks).0 == old(lockpicks).0
        },
        !success ==> {
            &&& outcome == AutoAttemptOutcome::Failed(loss_after(old(lockpicks).0, true))
            &&& final(pins)@ == old(pins)@
            &&& final(lockpicks).0 == lockpicks_after(old(lockpicks).0, true)
        },
{
    if !success {
        let loss = lockpicks.lose_one();
        return AutoAttemptOutcome::Failed(loss);
    }
    let ghost before = pins@;
    let mut j: usize = 0;
    while j < pins.len()
        invariant
            j <= pins@.len(),
            pins@.len() == before.len(),
            forall|i: int| j <= i < before.len() ==> #[trigger] pins@[i] == before[i],
            forall|i: int|
                0 <= i < j ==> #[trigger] pins@[i] == with_markers(
                    before[i],
                    marks_forced_open(before[i].markers),
                ),
        decreases pins@.len() - j,
    {
        let m = pins[j].markers;
        pins[j].markers = PinMarkers { unlocked: true, ..m };
        j += 1;
    }
    AutoAttemptOutcome::Opened(CheckWin)
}

/// An automatic attempt: opens the lock with a chance of one in twenty, and
/// otherwise breaks a lockpick.
pub fn random_attemp(pins: &mut Vec<PinEntry>, lockpicks: &mut PlayerLockpicks) -> (outcome:
    AutoAttemptOutcome)
    ensures
        outcome == AutoAttemptOutcome::Opened(CheckWin) ==> all_forced_open(old(pins)@, final(pins)@)
            && final(lockpicks).0 == old(lockpicks).0,
        outcome != AutoAttemptOutcome::Opened(CheckWin) ==> {
            &&& outcome == AutoAttemptOutcome::Failed(loss_after(old(lockpicks).0, true))
            &&& final(pins)@ == old(pins)@
            &&& final(lockpicks).0 == lockpicks_after(old(lockpicks).0, true)
        },
        exists|throw: Draw|
            {
                &&& is_attempt_throw(throw)
                &&& throw.outcome() ==> {
                    &&& outcome == AutoAttemptOutcome::Opened(CheckWin)
                    &&& all_forced_open(old(pins)@, final(pins)@)
                    &&& final(lockpicks).0 == old(lockpicks).0
                }
                &&& !throw.outcome() ==> {
                    &&& outcome == AutoAttemptOutcome::Failed(loss_after(old(lockpicks).0, true))
                    &&& final(pins)@ == old(pins)@
                    &&& final(lockpicks).0 == lockpicks_after(old(lockpicks).0, true)
                }
            },
{
    let throw = chance(AUTO_ATTEMPT_CHANCE_NUMERATOR, AUTO_ATTEMPT_CHANCE_DENOMINATOR, 0);
    let success = throw.hit();
    let outcome = apply_auto_attempt(pins, lockpicks, success);
    assert(is_attempt_throw(throw));
    outcome
}

// ---------------------------------------------------------------------------
// Winning
// ---------------------------------------------------------------------------

/// The number of unlocked pins.
pub open spec fn count_unlocked(pins: Seq<PinEntry>) -> nat
    decreases pins.len(),
{
    if pins.len() == 0 {
        0
    } else {
        count_unlocked(pins.drop_last()) + if pins.last().markers.unlocked {
            1nat
        } else {
            0nat
        }
    }
}

/// The lock is open when as many pins are unlocked as the lock has tumblers.
pub fn is_lock_open(pins: &Vec<PinEntry>) -> (open: bool)
    ensures
        open == (count_unlocked(pins@) == TUMBLERS),
{
    let mut count: usize = 0;
    let mut j: usize = 0;
    while j < pins.len()
        invariant
            j <= pins@.len(),
            count == count_unlocked(pins@.take(j as int)),
            count <= j,
        decreases pins@.len() - j,
    {
        assert(pins@.take(j + 1).drop_last() =~= pins@.take(j as int));
        if pins[j].markers.unlocked {
            count = count + 1;
        }
        j += 1;
    }
    assert(pins@.take(pins@.len() as int) =~= pins@);
    count == TUMBLERS
}

// ---------------------------------------------------------------------------
// The lockpick
// ---------------------------------------------------------------------------

/// The arrow keys pressed since the last step.
#[derive(Debug, Clone, Copy, PartialEq, Eq, Structural)]
pub struct KeyPresses {
    pub up: bool,
    pub left: bool,
    pub right: bool,
}

/// What the lockpick does after a step of key presses.
#[derive(Debug, Clone, Copy, PartialEq, Eq, Structural)]
pub struct LockpickCommand {
    /// The lockpick starts to rise.
    pub enter_up: bool,
    /// The pin above the lockpick is to be triggered.
    pub trigger: Option<TriggerPin>,
    /// The active pin is to be picked.
    pub try_unlock: Option<TryUnlockPin>,
    /// The lockpick moved sideways and is to be redrawn at its new position.
    pub moved: bool,
}

/// The position of the lockpick after the sideways keys of a step, when no pin
/// is active: one step left (not below the first pin), then one step right (not
/// beyond the last pin).
pub open spec fn moved_position(position: int, keys: KeyPresses) -> int {
    let after_left = if keys.left {
        if position == 0 {
            0
        } else {
            position - 1
        }
    } else {
        position
    };
    if keys.right {
        if after_left + 1 <= TUMBLERS - 1 {
            after_left + 1
        } else {
            TUMBLERS - 1
        }
    } else {
        after_left
    }
}

/// One step of the lockpick. The up key makes it rise, and either triggers the
/// pin above it (when no pin is active) or picks the active pin. While a pin is
/// active the lockpick does not move sideways; otherwise the left and right keys
/// move it by one pin, within the lock.
pub fn trigger_lockpick(lockpick: &mut Lockpick, keys: KeyPresses, active_pin_empty: bool) -> (command:
    LockpickCommand)
    requires
        active_pin_empty && keys.left ==> old(lockpick).current_position <= TUMBLERS,
        active_pin_empty && keys.right && !keys.left ==> old(lockpick).current_position
            < usize::MAX,
    ensures
        command.enter_up == keys.up,
        command.trigger == if keys.up && active_pin_empty {
            Some(TriggerPin(old(lockpick).current_position))
        } else {
            None
        },
        command.try_unlock == if keys.up && !active_pin_empty {
            Some(TryUnlockPin)
        } else {
            None
        },
        command.moved == (active_pin_empty && (keys.left || keys.right)),
        final(lockpick).current_position == if active_pin_empty {
            moved_position(old(lockpick).current_position as int, keys)
        } else {
            old(lockpick).current_position as int
        },
        command.moved ==> final(lockpick).current_position < TUMBLERS,
{
    let mut command = LockpickCommand {
        enter_up: false,
        trigger: None,
        try_unlock: None,
        moved: false,
    };
    if keys.up {
        command.enter_up = true;
        if active_pin_empty {
            command.trigger = Some(TriggerPin(lockpick.current_position));
        } else {
            command.try_unlock = Some(TryUnlockPin);
        }
    }
    if !active_pin_empty {
        return command;
    }
    if keys.left {
        lockpick.current_position = match lockpick.current_position.checked_sub(1) {
            Some(p) => p,
            None => 0,
        };
        command.moved = true;
    }
    if keys.right {
        let next = lockpick.current_position + 1;
        lockpick.current_position = if next <= TUMBLERS - 1 {
            next
        } else {
            TUMBLERS - 1
        };
        command.moved = true;
    }
    command
}

// ---------------------------------------------------------------------------
// Set-up
// ---------------------------------------------------------------------------

/// The pin at `index` in a fresh lock: at the start of its pattern, unlocked
/// when `by_default` holds and locked otherwise.
pub open spec fn is_fresh_pin(e: PinEntry, index: int, by_default: bool) -> bool {
    &&& e.pin.index == index
    &&& e.pin.next_rise == 0
    &&& e.pin.pattern@.len() == RISE_NUM
    &&& e.markers == if by_default {
        default_unlocked_markers()
    } else {
        locked_markers()
    }
}

/// A fresh lock whose pins at the indexes in `defaults` start unlocked.
pub fn initial_pins_from(defaults: &HashSet<usize>) -> (pins: Vec<PinEntry>)
    ensures
        pins@.len() == TUMBLERS,
        forall|i: int|
            0 <= i < TUMBLERS ==> is_fresh_pin(#[trigger] pins@[i], i, defaults@.contains(i as usize)),
{
    let mut pins: Vec<PinEntry> = Vec::new();
    let mut i: usize = 0;
    while i < TUMBLERS
        invariant
            i <= TUMBLERS,
            pins@.len() == i,
            forall|j: int|
                0 <= j < i ==> is_fresh_pin(#[trigger] pins@[j], j, defaults@.contains(j as usize)),
        decreases TUMBLERS - i,
    {
        let markers = if defaults.contains(&i) {
            PinMarkers {
                locked: false,
                unlocked: true,
                unlocked_by_default: true,
                triggered: false,
                dropping: false,
            }
        } else {
            PinMarkers {
                locked: true,
                unlocked: false,
                unlocked_by_default: false,
                triggered: false,
                dropping: false,
            }
        };
        pins.push(PinEntry { pin: Pin::new(i), markers });
        i += 1;
    }
    pins
}

/// When the unlocked pins are exactly those whose index `defaults` holds, and
/// every index of `defaults` is a pin, they are as many as `defaults` has indexes.
pub proof fn lemma_count_unlocked_is_set_len(pins: Seq<PinEntry>, defaults: Set<usize>)
    requires
        pins.len() <= usize::MAX,
        defaults.finite(),
        forall|x: usize| #[trigger] defaults.contains(x) ==> x < pins.len(),
        forall|i: int| 0 <= i < pins.len() ==> (#[trigger] pins[i].markers.unlocked <==> defaults.contains(i as usize)),
    ensures
        count_unlocked(pins) == defaults.len(),
    decreases pins.len(),
{
    if pins.len() == 0 {
        assert(defaults =~= Set::<usize>::empty());
    } else {
        let last = (pins.len() - 1) as usize;
        let rest = defaults.remove(last);
        let front = pins.drop_last();
        assert forall|i: int| 0 <= i < front.len() implies (#[trigger] front[i].markers.unlocked
            <==> rest.contains(i as usize)) by {
            assert(front[i] == pins[i]);
        }
        lemma_count_unlocked_is_set_len(front, rest);
        if pins.last().markers.unlocked {
            assert(defaults.contains(last));
        } else {
            assert(rest =~= defaults);
        }
    }
}

/// The pins unlocked from the start are the first `UNLOCKED_BY_DEFAULT_NUM` of
/// a random shuffle `s` of all the lock's indexes.
pub open spec fn is_default_choice(pins: Seq<PinEntry>, s: Shuffle) -> bool {
    &&& s.source() == candidate_indexes(TUMBLERS as nat, Seq::empty())
    &&& s.order().to_multiset() == s.source().to_multiset()
    &&& forall|i: int|
        0 <= i < TUMBLERS ==> ((#[trigger] pins[i]).markers.unlocked_by_default <==> s.order().take(
            UNLOCKED_BY_DEFAULT_NUM as int,
        ).contains(i as usize))
}

/// A fresh lock: `UNLOCKED_BY_DEFAULT_NUM` pins chosen at random start
/// unlocked, the others locked, each pin at the start of a fresh random pattern.
pub fn initial_pins() -> (pins: Vec<PinEntry>)
    ensures
        pins@.len() == TUMBLERS,
        forall|i: int|
            0 <= i < TUMBLERS ==> is_fresh_pin(
                #[trigger] pins@[i],
                i,
                pins@[i].markers.unlocked_by_default,
            ),
        count_unlocked(pins@) == UNLOCKED_BY_DEFAULT_NUM,
        exists|s: Shuffle| is_default_choice(pins@, s),
{
    let nothing: Vec<usize> = Vec::new();
    let defaults = random_indexes(UNLOCKED_BY_DEFAULT_NUM, TUMBLERS, nothing.as_slice());
    let pins = initial_pins_from(&defaults);
    proof {
        crate::utils::lemma_no_exclusions(TUMBLERS as nat);
        assert(nothing@ =~= Seq::<usize>::empty());
        let s = choose|s: Shuffle|
            {
                &&& s.source() == candidate_indexes(TUMBLERS as nat, nothing@)
                &&& s.order().to_multiset() == s.source().to_multiset()
                &&& defaults@ == s.order().take(
                    min_nat(UNLOCKED_BY_DEFAULT_NUM as nat, s.order().len()) as int,
                ).to_set()
            };
        s.order().to_multiset_ensures();
        s.source().to_multiset_ensures();
        assert(s.order().len() == TUMBLERS);
        assert forall|i: int| 0 <= i < TUMBLERS implies (#[trigger] pins@[i]).markers.unlocked_by_default
            <==> s.order().take(UNLOCKED_BY_DEFAULT_NUM as int).contains(i as usize) by {
            assert(is_fresh_pin(pins@[i], i, defaults@.contains(i as usize)));
        }
        assert(is_default_choice(pins@, s));
        assert forall|i: int| 0 <= i < pins@.len() implies (#[trigger] pins@[i].markers.unlocked
            <==> defaults@.contains(i as usize)) by {
            assert(is_fresh_pin(pins@[i], i, defaults@.contains(i as usize)));
        }
        lemma_count_unlocked_is_set_len(pins@, defaults@);
        assert forall|i: int| 0 <= i < TUMBLERS implies is_fresh_pin(
            #[trigger] pins@[i],
            i,
            pins@[i].markers.unlocked_by_default,
        ) by {
            assert(is_fresh_pin(pins@[i], i, defaults@.contains(i as usize)));
        }
    }
    pins
}

} // verus!
