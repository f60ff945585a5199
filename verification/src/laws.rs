//! Properties of the game that hold across its steps.
use vstd::prelude::*;

use crate::components::{rise_step, PinEntry};
use crate::consts::{
    DROP_NUM_AFTER_FAIL, FAST_RISE_CHANCE_DENOMINATOR, FAST_RISE_CHANCE_NUMERATOR, TUMBLERS,
    UNLOCKED_BY_DEFAULT_NUM,
};
use crate::rules::{
    after_missed_pick, all_forced_open, count_unlocked, holds_place, is_excluded_index, locked_markers, marks_fallen,
    marks_falling, marks_set, marks_triggered, moved_position, shaken_loose, with_markers,
    KeyPresses, can_trigger, default_unlocked_markers, is_moving, is_only_active, drop_candidates, is_drop_choice,
};
use crate::utils::{candidate_indexes, lemma_candidate_indexes, min_nat};
use crate::random::{Draw, Shuffle};
use crate::components::{is_rise_throw, is_thrown_pattern};
use crate::rules::{is_attempt_throw, is_default_choice, is_loss_throw};

verus! {

/// The index of the rise reached after `k` moves from rise `next_rise` in a
/// pattern of `len` rises.
pub open spec fn rise_steps(next_rise: int, len: int, k: nat) -> int
    decreases k,
{
    if k == 0 {
        next_rise
    } else {
        rise_step(rise_steps(next_rise, len, (k - 1) as nat), len)
    }
}

/// A pin goes through its rise pattern in turn: after `k` moves from rise
/// `next_rise` it stands at rise `(next_rise + k) mod len`.
pub proof fn lemma_rise_pattern_in_turn(next_rise: int, len: int, k: nat)
    requires
        0 <= next_rise < len,
    ensures
        rise_steps(next_rise, len, k) == (next_rise + k) % len,
    decreases k,
{
    if k > 0 {
        lemma_rise_pattern_in_turn(next_rise, len, (k - 1) as nat);
        let a = next_rise + k - 1;
        let prev = rise_steps(next_rise, len, (k - 1) as nat);
        let q = a / len;
        vstd::arithmetic::div_mod::lemma_fundamental_div_mod(a, len);
        vstd::arithmetic::div_mod::lemma_mod_bound(a, len);
        assert(a == q * len + prev) by (nonlinear_arith)
            requires
                a == len * (a / len) + (a % len),
                q == a / len,
                prev == a % len,
        ;
        if prev + 1 == len {
            assert(a + 1 == (q + 1) * len + 0) by (nonlinear_arith)
                requires
                    a == q * len + prev,
                    prev + 1 == len,
            ;
            vstd::arithmetic::div_mod::lemma_fundamental_div_mod_converse(a + 1, len, q + 1, 0);
        } else {
            assert(a + 1 == q * len + (prev + 1));
            vstd::arithmetic::div_mod::lemma_fundamental_div_mod_converse(a + 1, len, q, prev + 1);
        }
        assert(rise_steps(next_rise, len, k) == rise_step(prev, len));
        assert(next_rise + k == a + 1);
    } else {
        vstd::arithmetic::div_mod::lemma_small_mod(next_rise as nat, len as nat);
    }
}

/// After as many moves as its pattern has rises, a pin is back at the rise it
/// started from.
pub proof fn lemma_rise_pattern_cycles(next_rise: int, len: int)
    requires
        0 <= next_rise < len,
    ensures
        rise_steps(next_rise, len, len as nat) == next_rise,
{
    lemma_rise_pattern_in_turn(next_rise, len, len as nat);
    vstd::arithmetic::div_mod::lemma_add_mod_noop(next_rise, len, len);
    vstd::arithmetic::div_mod::lemma_mod_self_0(len);
    vstd::arithmetic::div_mod::lemma_small_mod(next_rise as nat, len as nat);
}

/// There are never more unlocked pins than pins, and there are as many exactly
/// when every pin is unlocked.
pub proof fn lemma_all_unlocked_iff_count(pins: Seq<PinEntry>)
    ensures
        count_unlocked(pins) <= pins.len(),
        count_unlocked(pins) == pins.len() <==> forall|i: int|
            0 <= i < pins.len() ==> (#[trigger] pins[i]).markers.unlocked,
    decreases pins.len(),
{
    if pins.len() > 0 {
        let front = pins.drop_last();
        lemma_all_unlocked_iff_count(front);
        if forall|i: int| 0 <= i < pins.len() ==> (#[trigger] pins[i]).markers.unlocked {
            assert forall|i: int| 0 <= i < front.len() implies (#[trigger] front[i]).markers.unlocked by {
                assert(front[i] == pins[i]);
            }
        }
        if count_unlocked(pins) == pins.len() {
            assert forall|i: int| 0 <= i < pins.len() implies (#[trigger] pins[i]).markers.unlocked by {
                if i < front.len() {
                    assert(front[i] == pins[i]);
                }
            }
        }
    }
}

/// The lock of `TUMBLERS` pins is open exactly when every one of its pins is unlocked.
pub proof fn lemma_open_iff_all_unlocked(pins: Seq<PinEntry>)
    requires
        pins.len() == TUMBLERS,
    ensures
        count_unlocked(pins) == TUMBLERS <==> forall|i: int|
            0 <= i < pins.len() ==> (#[trigger] pins[i]).markers.unlocked,
{
    lemma_all_unlocked_iff_count(pins);
}

/// A successful automatic attempt opens the lock.
pub proof fn lemma_auto_attempt_opens_lock(before: Seq<PinEntry>, after: Seq<PinEntry>)
    requires
        before.len() == TUMBLERS,
        all_forced_open(before, after),
    ensures
        count_unlocked(after) == TUMBLERS,
{
    assert forall|i: int| 0 <= i < after.len() implies (#[trigger] after[i]).markers.unlocked by {
        assert(after[i] == with_markers(before[i], crate::rules::marks_forced_open(before[i].markers)));
    }
    lemma_open_iff_all_unlocked(after);
}

/// A fresh lock is closed.
pub proof fn lemma_fresh_lock_is_closed(pins: Seq<PinEntry>)
    requires
        count_unlocked(pins) == UNLOCKED_BY_DEFAULT_NUM,
    ensures
        count_unlocked(pins) != TUMBLERS,
{
}

/// Setting a pin opens the lock exactly when every other pin was already unlocked.
pub proof fn lemma_setting_last_pin_opens_lock(pins: Seq<PinEntry>, active: int)
    requires
        pins.len() == TUMBLERS,
        0 <= active < pins.len(),
    ensures
        count_unlocked(pins.update(active, with_markers(pins[active], marks_set(pins[active].markers))))
            == TUMBLERS <==> forall|j: int|
            0 <= j < pins.len() && j != active ==> (#[trigger] pins[j]).markers.unlocked,
{
    let after = pins.update(active, with_markers(pins[active], marks_set(pins[active].markers)));
    lemma_open_iff_all_unlocked(after);
    if forall|j: int| 0 <= j < pins.len() && j != active ==> (#[trigger] pins[j]).markers.unlocked {
        assert forall|i: int| 0 <= i < after.len() implies (#[trigger] after[i]).markers.unlocked by {
            if i != active {
                assert(after[i] == pins[i]);
            }
        }
    }
    if count_unlocked(after) == TUMBLERS {
        assert forall|j: int| 0 <= j < pins.len() && j != active implies (
        #[trigger] pins[j]).markers.unlocked by {
            assert(after[j] == pins[j]);
            assert(after[j].markers.unlocked);
        }
    }
}

/// When every pin of `after` is unlocked only if the same pin of `before` is,
/// `after` has no more unlocked pins than `before`.
pub proof fn lemma_count_unlocked_monotone(before: Seq<PinEntry>, after: Seq<PinEntry>)
    requires
        after.len() == before.len(),
        forall|i: int|
            0 <= i < after.len() ==> (#[trigger] after[i]).markers.unlocked ==> before[i].markers.unlocked,
    ensures
        count_unlocked(after) <= count_unlocked(before),
    decreases after.len(),
{
    if after.len() > 0 {
        let a = after.drop_last();
        let b = before.drop_last();
        assert forall|i: int| 0 <= i < a.len() && (#[trigger] a[i]).markers.unlocked implies b[i].markers.unlocked by {
            assert(a[i] == after[i]);
            assert(b[i] == before[i]);
        }
        lemma_count_unlocked_monotone(b, a);
    }
}

/// A missed pick unlocks no pin, never moves a pin that holds its place (locked,
/// or unlocked from the start, and neither rising nor falling), and the only
/// pins it makes fall besides the picked one are unlocked pins whose index was
/// chosen to drop.
pub proof fn lemma_missed_pick_spares_pins(
    before: Seq<PinEntry>,
    after: Seq<PinEntry>,
    active: int,
    to_drop: Set<usize>,
)
    requires
        0 <= active < before.len(),
        forall|x: usize| #[trigger] to_drop.contains(x) ==> !is_excluded_index(before, active, x),
        after_missed_pick(before, after, active, to_drop),
    ensures
        forall|j: int|
            0 <= j < before.len() && j != active && holds_place(#[trigger] before[j].markers)
                ==> after[j] == before[j],
        forall|j: int|
            0 <= j < before.len() && j != active && (#[trigger] after[j]).markers.dropping
                && !before[j].markers.dropping ==> before[j].markers.unlocked && to_drop.contains(
                before[j].pin.index,
            ),
        forall|j: int|
            0 <= j < before.len() ==> (#[trigger] after[j]).markers.unlocked
                ==> before[j].markers.unlocked,
        count_unlocked(after) <= count_unlocked(before),
{
    assert forall|j: int| 0 <= j < before.len() && (#[trigger] after[j]).markers.unlocked implies before[j].markers.unlocked by {
        if j != active {
            assert(after[j] == if shaken_loose(before[j], to_drop) {
                with_markers(before[j], crate::rules::marks_shaken_loose(before[j].markers))
            } else {
                before[j]
            });
        }
    }
    assert forall|j: int|
        0 <= j < before.len() && j != active && holds_place(#[trigger] before[j].markers) implies after[j]
        == before[j] by {
        assert(is_excluded_index(before, active, before[j].pin.index));
        assert(!shaken_loose(before[j], to_drop));
    }
    assert forall|j: int|
        0 <= j < before.len() && j != active && (#[trigger] after[j]).markers.dropping
            && !before[j].markers.dropping implies before[j].markers.unlocked && to_drop.contains(
        before[j].pin.index,
    ) by {
        if !shaken_loose(before[j], to_drop) {
            assert(after[j] == before[j]);
        }
    }
    lemma_count_unlocked_monotone(before, after);
}

/// A missed pick chooses no more than `DROP_NUM_AFTER_FAIL` indexes to drop, so
/// it shakes loose the pins of at most that many indexes.
pub proof fn lemma_missed_pick_drops_few(
    before: Seq<PinEntry>,
    after: Seq<PinEntry>,
    active: int,
    to_drop: Set<usize>,
)
    requires
        0 <= active < before.len(),
        to_drop.finite(),
        to_drop.len() <= DROP_NUM_AFTER_FAIL,
        after_missed_pick(before, after, active, to_drop),
    ensures
        ({
            let loose = Set::new(
                |x: usize|
                    exists|j: int|
                        0 <= j < before.len() && j != active && before[j].markers.unlocked
                            && !(#[trigger] after[j]).markers.unlocked && before[j].pin.index == x,
            );
            loose.finite() && loose.len() <= DROP_NUM_AFTER_FAIL
        }),
{
    let loose = Set::new(
        |x: usize|
            exists|j: int|
                0 <= j < before.len() && j != active && before[j].markers.unlocked && !(
                #[trigger] after[j]).markers.unlocked && before[j].pin.index == x,
    );
    assert forall|x: usize| loose.contains(x) implies to_drop.contains(x) by {
        let j = choose|j: int|
            0 <= j < before.len() && j != active && before[j].markers.unlocked && !(
            #[trigger] after[j]).markers.unlocked && before[j].pin.index == x;
        if !shaken_loose(before[j], to_drop) {
            assert(after[j] == before[j]);
        }
    }
    assert(loose.subset_of(to_drop));
    vstd::set_lib::lemma_len_subset(loose, to_drop);
}

/// The indexes of the pins other than `active` that were unlocked in `before`
/// and are no longer in `after`.
pub open spec fn loose_indexes(before: Seq<PinEntry>, after: Seq<PinEntry>, active: int) -> Set<usize> {
    Set::new(
        |x: usize|
            exists|j: int|
                0 <= j < before.len() && j != active && before[j].markers.unlocked && !(
                #[trigger] after[j]).markers.unlocked && before[j].pin.index == x,
    )
}

/// The indexes of the pins other than `active` that the player unlocked (not
/// unlocked from the start).
pub open spec fn player_unlocked_indexes(pins: Seq<PinEntry>, active: int) -> Set<usize> {
    Set::new(
        |x: usize|
            exists|j: int|
                0 <= j < pins.len() && j != active && (#[trigger] pins[j]).markers.unlocked
                    && !pins[j].markers.unlocked_by_default && pins[j].pin.index == x,
    )
}

/// Some pin of `pins` has index `x`.
pub open spec fn has_pin_at(pins: Seq<PinEntry>, x: usize) -> bool {
    exists|i: int| 0 <= i < pins.len() && (#[trigger] pins[i]).pin.index == x
}

/// A lock laid out as in play, in any order: every index below `TUMBLERS` is
/// the index of exactly one pin and no pin has another, and every pin but the
/// picked one is at rest, either locked or unlocked.
pub open spec fn is_lock_at_rest_but(pins: Seq<PinEntry>, active: int) -> bool {
    &&& 0 <= active < pins.len()
    &&& forall|i: int| 0 <= i < pins.len() ==> (#[trigger] pins[i]).pin.index < TUMBLERS
    &&& forall|x: usize| x < TUMBLERS ==> #[trigger] has_pin_at(pins, x)
    &&& forall|i: int, j: int|
        0 <= i < pins.len() && 0 <= j < pins.len() && i != j ==> (#[trigger] pins[i]).pin.index
            != (#[trigger] pins[j]).pin.index
    &&& forall|j: int|
        0 <= j < pins.len() && j != active ==> (#[trigger] pins[j]).markers.is_still()
            && pins[j].markers.locked != pins[j].markers.unlocked
}

/// In a lock at rest but for the picked pin, a missed pick makes exactly
/// `min(DROP_NUM_AFTER_FAIL, e)` of the pins that the player unlocked fall,
/// where `e` is how many there are: the pins that lose their unlocked marker
/// are exactly those at the chosen indexes, and the candidates are exactly
/// the pins that the player unlocked.
pub proof fn lemma_missed_pick_drops_exactly(
    before: Seq<PinEntry>,
    after: Seq<PinEntry>,
    active: int,
    to_drop: Set<usize>,
)
    requires
        is_lock_at_rest_but(before, active),
        is_drop_choice(before, active, to_drop),
        after_missed_pick(before, after, active, to_drop),
    ensures
        drop_candidates(before, active) == player_unlocked_indexes(before, active),
        loose_indexes(before, after, active) == to_drop,
        loose_indexes(before, after, active).len() == min_nat(
            DROP_NUM_AFTER_FAIL as nat,
            player_unlocked_indexes(before, active).len(),
        ),
{
    let cands = drop_candidates(before, active);
    let mine = player_unlocked_indexes(before, active);
    assert forall|x: usize| cands.contains(x) implies mine.contains(x) by {
        assert(has_pin_at(before, x));
        let j = choose|j: int| 0 <= j < before.len() && (#[trigger] before[j]).pin.index == x;
        assert(j != active);
        if !before[j].markers.unlocked || before[j].markers.unlocked_by_default {
            assert(holds_place(before[j].markers));
            assert(is_excluded_index(before, active, x));
        }
        assert(before[j].markers.unlocked && !before[j].markers.unlocked_by_default
            && before[j].pin.index == x);
    }
    assert forall|x: usize| mine.contains(x) implies cands.contains(x) by {
        let j = choose|j: int|
            0 <= j < before.len() && j != active && (#[trigger] before[j]).markers.unlocked
                && !before[j].markers.unlocked_by_default && before[j].pin.index == x;
        assert(x < TUMBLERS);
        assert(before[active].pin.index != before[j].pin.index);
        if is_excluded_index(before, active, x) {
            if x != before[active].pin.index {
                let i = choose|i: int|
                    0 <= i < before.len() && holds_place(#[trigger] before[i].markers)
                        && before[i].pin.index == x;
                if i != j {
                    assert(before[i].pin.index != before[j].pin.index);
                }
            }
        }
    }
    assert(cands =~= mine);
    let loose = loose_indexes(before, after, active);
    assert forall|x: usize| loose.contains(x) implies to_drop.contains(x) by {
        let j = choose|j: int|
            0 <= j < before.len() && j != active && before[j].markers.unlocked && !(
            #[trigger] after[j]).markers.unlocked && before[j].pin.index == x;
        if !shaken_loose(before[j], to_drop) {
            assert(after[j] == before[j]);
        }
    }
    assert forall|x: usize| to_drop.contains(x) implies loose.contains(x) by {
        assert(cands.contains(x));
        assert(mine.contains(x));
        let j = choose|j: int|
            0 <= j < before.len() && j != active && (#[trigger] before[j]).markers.unlocked
                && !before[j].markers.unlocked_by_default && before[j].pin.index == x;
        assert(shaken_loose(before[j], to_drop));
        assert(after[j] == with_markers(before[j], crate::rules::marks_shaken_loose(before[j].markers)));
        assert(!after[j].markers.unlocked);
    }
    assert(loose =~= to_drop);
}

/// A pin that is triggered and then left alone rises, falls, and ends locked
/// again with the markers it started with.
pub proof fn lemma_unanswered_trigger_relocks()
    ensures
        marks_fallen(marks_falling(marks_triggered(locked_markers()))) == locked_markers(),
{
}

/// The lockpick never leaves the lock: from any pin, the sideways keys move it
/// to a pin.
pub proof fn lemma_lockpick_stays_in_lock(position: int, keys: KeyPresses)
    requires
        0 <= position < TUMBLERS,
    ensures
        0 <= moved_position(position, keys) < TUMBLERS,
{
}

/// When no pin is rising or falling and the lockpick triggers pin `k`, that pin
/// becomes the only pin in motion, and the one that the next pick acts on.
pub proof fn lemma_trigger_from_rest_picks_that_pin(pins: Seq<PinEntry>, k: int)
    requires
        0 <= k < pins.len(),
        forall|j: int| 0 <= j < pins.len() ==> !is_moving(#[trigger] pins[j].markers),
    ensures
        ({
            let after = pins.update(k, with_markers(pins[k], marks_triggered(pins[k].markers)));
            &&& is_only_active(after, k)
            &&& forall|j: int| 0 <= j < after.len() && j != k ==> !is_moving(#[trigger] after[j].markers)
        }),
{
    let after = pins.update(k, with_markers(pins[k], marks_triggered(pins[k].markers)));
    assert forall|j: int| 0 <= j < after.len() && j != k implies !is_moving(#[trigger] after[j].markers) by {
        assert(after[j] == pins[j]);
    }
    assert forall|j: int| 0 <= j < after.len() && j != k implies !(#[trigger] after[j].markers).is_active() by {
        assert(after[j] == pins[j]);
        assert(!is_moving(pins[j].markers));
    }
}

/// A pin whose unlocked marker is set is never hit by a trigger request,
/// whatever index it asks for; in particular a pin unlocked from the start
/// stays held at the top.
pub proof fn lemma_unlocked_pin_is_never_triggered(e: PinEntry, target: usize)
    requires
        e.markers.unlocked,
    ensures
        !can_trigger(e, target),
{
}

/// A pin that starts the game unlocked is never hit by a trigger request.
pub proof fn lemma_default_pin_is_never_triggered(e: PinEntry, target: usize)
    requires
        e.markers == default_unlocked_markers(),
    ensures
        !can_trigger(e, target),
{
}

/// A trigger request hits a pin exactly when the pin sits at the requested
/// index and is not unlocked.
pub proof fn lemma_trigger_condition(e: PinEntry, target: usize)
    ensures
        can_trigger(e, target) <==> (e.pin.index == target && !e.markers.unlocked),
{
}

/// The throw of an automatic attempt is a real chance: neither sure to open the
/// lock nor sure to fail.
pub proof fn lemma_attempt_is_a_real_chance(throw: Draw)
    requires
        is_attempt_throw(throw),
    ensures
        0 < throw.odds().0 < throw.odds().1,
{
}

/// The throw that decides whether a missed pick breaks a lockpick is a real
/// chance: a miss may break one, and may not.
pub proof fn lemma_loss_is_a_real_chance(throw: Draw)
    requires
        is_loss_throw(throw),
    ensures
        0 < throw.odds().0 < throw.odds().1,
{
}

/// Each rise of a thrown pattern is decided by its own fair coin: the throws of
/// two different rises are two different throws, each of odds one in two.
pub proof fn lemma_pattern_rises_are_thrown_separately(pattern: Seq<crate::components::Rise>, n: nat)
    requires
        is_thrown_pattern(pattern, n),
    ensures
        exists|throws: Seq<Draw>|
            {
                &&& throws.len() == n
                &&& forall|i: int| 0 <= i < n ==> (#[trigger] throws[i]).odds() == (FAST_RISE_CHANCE_NUMERATOR, FAST_RISE_CHANCE_DENOMINATOR)
                &&& forall|i: int, j: int|
                    0 <= i < n && 0 <= j < n && i != j ==> #[trigger] throws[i] != #[trigger] throws[j]
                &&& forall|i: int|
                    0 <= i < n ==> pattern[i] == crate::components::rise_of_draw(throws[i].outcome())
            },
{
    let throws = choose|throws: Seq<Draw>|
        {
            &&& throws.len() == n
            &&& pattern.len() == n
            &&& forall|i: int|
                0 <= i < n ==> is_rise_throw(#[trigger] throws[i], i) && pattern[i]
                    == crate::components::rise_of_draw(throws[i].outcome())
        };
    assert forall|i: int, j: int|
        0 <= i < n && 0 <= j < n && i != j implies #[trigger] throws[i] != #[trigger] throws[j] by {
        assert(is_rise_throw(throws[i], i));
        assert(is_rise_throw(throws[j], j));
    }
    assert forall|i: int| 0 <= i < n implies (#[trigger] throws[i]).odds() == (FAST_RISE_CHANCE_NUMERATOR, FAST_RISE_CHANCE_DENOMINATOR) by {
        assert(is_rise_throw(throws[i], i));
    }
}

/// The pins unlocked from the start are drawn from the whole lock: the shuffle
/// they come from holds every index of the lock once, so any pin may be chosen,
/// and exactly `UNLOCKED_BY_DEFAULT_NUM` of them are.
pub proof fn lemma_default_pins_drawn_from_whole_lock(pins: Seq<PinEntry>, s: Shuffle)
    requires
        is_default_choice(pins, s),
    ensures
        forall|x: usize| x < TUMBLERS ==> #[trigger] s.source().contains(x),
        s.order().len() == TUMBLERS,
        s.order().no_duplicates(),
        forall|x: usize| #[trigger] s.order().contains(x) ==> x < TUMBLERS,
{
    lemma_candidate_indexes(TUMBLERS as nat, Seq::empty());
    crate::utils::lemma_no_exclusions(TUMBLERS as nat);
    crate::utils::lemma_permutation_keeps_elements(s.source(), s.order());
}

} // verus!
