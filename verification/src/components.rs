//! The pieces of the lock: pins with their rise patterns, the lockpick, and the
//! markers that say in which phase each pin is.
use vstd::prelude::*;

use crate::consts::{FAST_RISE_CHANCE_DENOMINATOR, FAST_RISE_CHANCE_NUMERATOR, RISE_NUM};
use crate::random::{chance, Draw};

verus! {

/// How fast a pin rises once triggered.
#[derive(Debug, Clone, Copy, PartialEq, Eq, Structural)]
pub enum Rise {
    Slow,
    Fast,
}

/// The index of the rise that follows `next_rise` in a pattern of `len` rises:
/// one further, and back to the first after the last.
pub open spec fn rise_step(next_rise: int, len: int) -> int {
    if next_rise + 1 == len {
        0
    } else {
        next_rise + 1
    }
}

/// The rise that a coin draw selects: `true` gives a fast rise.
pub open spec fn rise_of_draw(fast: bool) -> Rise {
    if fast {
        Rise::Fast
    } else {
        Rise::Slow
    }
}

/// A throw that decides rise number `turn` of a pattern: a fair coin, numbered
/// by the rise it decides.
pub open spec fn is_rise_throw(throw: Draw, turn: int) -> bool {
    &&& throw.odds() == (FAST_RISE_CHANCE_NUMERATOR, FAST_RISE_CHANCE_DENOMINATOR)
    &&& throw.turn() == turn
}

/// `pattern` has `n` rises, and each is decided by its own throw of a fair coin:
/// there are `n` throws, the one for rise `i` numbered `i`, and rise `i` is fast
/// exactly when its throw came up `true`.
pub open spec fn is_thrown_pattern(pattern: Seq<Rise>, n: nat) -> bool {
    exists|throws: Seq<Draw>|
        {
            &&& throws.len() == n
            &&& pattern.len() == n
            &&& forall|i: int|
                0 <= i < n ==> is_rise_throw(#[trigger] throws[i], i) && pattern[i]
                    == rise_of_draw(throws[i].outcome())
        }
}

/// One pin of the lock. Its position on screen and the time it has spent
/// rising are kept by the program that draws it.
pub struct Pin {
    /// Position of the pin in the lock, from the left.
    pub index: usize,
    /// Index in `pattern` of the rise that the next trigger uses.
    pub next_rise: usize,
    /// The speeds of the successive rises, used in turn.
    pub pattern: Vec<Rise>,
}

impl Pin {
    /// A pin whose current rise can be read.
    pub open spec fn wf(&self) -> bool {
        self.next_rise < self.pattern@.len()
    }

    /// A pin at `index`, at the start of a fresh random pattern of `RISE_NUM`
    /// rises, each fast or slow by its own fair coin.
    pub fn new(index: usize) -> (pin: Pin)
        ensures
            pin.index == index,
            pin.next_rise == 0,
            pin.pattern@.len() == RISE_NUM,
            pin.wf(),
            is_thrown_pattern(pin.pattern@, RISE_NUM as nat),
    {
        Pin { index, next_rise: 0, pattern: Self::generate_rise_pattern(RISE_NUM) }
    }

    /// `n` rises, each fast or slow by its own fair coin.
    fn generate_rise_pattern(n: usize) -> (pattern: Vec<Rise>)
        ensures
            pattern@.len() == n,
            is_thrown_pattern(pattern@, n as nat),
    {
        let mut draws: Vec<bool> = Vec::new();
        let ghost mut throws: Seq<Draw> = Seq::empty();
        let mut i: usize = 0;
        while i < n
            invariant
                i <= n,
                draws@.len() == i,
                throws.len() == i,
                forall|j: int|
                    0 <= j < i ==> is_rise_throw(#[trigger] throws[j], j) && throws[j].outcome()
                        == draws@[j],
            decreases n - i,
        {
            let throw = chance(FAST_RISE_CHANCE_NUMERATOR, FAST_RISE_CHANCE_DENOMINATOR, i);
            proof {
                throws = throws.push(throw);
            }
            draws.push(throw.hit());
            i += 1;
        }
        let pattern = Self::rise_pattern_from_draws(&draws);
        assert(forall|j: int|
            0 <= j < n ==> is_rise_throw(#[trigger] throws[j], j) && pattern@[j] == rise_of_draw(
                throws[j].outcome(),
            ));
        pattern
    }

    /// The rise pattern that a sequence of coin draws selects, one rise per draw.
    pub fn rise_pattern_from_draws(draws: &Vec<bool>) -> (pattern: Vec<Rise>)
        ensures
            pattern@.len() == draws@.len(),
            forall|i: int| 0 <= i < draws@.len() ==> pattern@[i] == rise_of_draw(#[trigger] draws@[i]),
    {
        let mut pattern: Vec<Rise> = Vec::new();
        let mut i: usize = 0;
        while i < draws.len()
            invariant
                i <= draws@.len(),
                pattern@.len() == i,
                forall|j: int| 0 <= j < i ==> pattern@[j] == rise_of_draw(#[trigger] draws@[j]),
            decreases draws@.len() - i,
        {
            let rise = if draws[i] {
                Rise::Fast
            } else {
                Rise::Slow
            };
            pattern.push(rise);
            i += 1;
        }
        pattern
    }

    /// The position of the pin in the lock.
    pub fn get_index(&self) -> (index: usize)
        ensures
            index == self.index,
    {
        self.index
    }

    /// Moves on to the next rise of the pattern, wrapping round after the last.
    pub fn inc_next_rise(&mut self)
        requires
            old(self).next_rise < usize::MAX,
        ensures
            final(self).next_rise == rise_step(old(self).next_rise as int, old(self).pattern@.len() as int),
            final(self).index == old(self).index,
            final(self).pattern@ == old(self).pattern@,
    {
        self.next_rise = self.next_rise + 1;
        if self.next_rise == self.pattern.len() {
            self.next_rise = 0;
        }
    }

    /// The speed of the rise that the next trigger uses.
    pub fn current_rise(&self) -> (rise: Rise)
        requires
            self.wf(),
        ensures
            rise == self.pattern@[self.next_rise as int],
    {
        self.pattern[self.next_rise]
    }
}

/// Where the lockpick is moving.
#[derive(Debug, Clone, Copy, PartialEq, Eq, Structural)]
pub enum LockpickState {
    /// Rising towards a pin.
    Up,
    /// Coming back down.
    Down,
    /// At rest below the pins.
    Unactive,
}

/// The lockpick, under one of the pins.
pub struct Lockpick {
    /// Index of the pin above the lockpick.
    pub current_position: usize,
}

/// The phase markers of one pin. They are independent flags: the game sets and
/// clears each of them on its own, and some moves leave two of them set at once.
#[derive(Debug, Clone, Copy, PartialEq, Eq, Structural)]
pub struct PinMarkers {
    /// Resting at the bottom, waiting to be triggered.
    pub locked: bool,
    /// Held at the top.
    pub unlocked: bool,
    /// Held at the top since the start of the game.
    pub unlocked_by_default: bool,
    /// Rising after the lockpick hit it.
    pub triggered: bool,
    /// Falling back to the bottom.
    pub dropping: bool,
}

impl PinMarkers {
    /// A pin that the lockpick acts on now: rising or falling, and not locked.
    pub open spec fn is_active(self) -> bool {
        (self.triggered || self.dropping) && !self.locked
    }

    /// A pin that is neither rising nor falling.
    pub open spec fn is_still(self) -> bool {
        !self.triggered && !self.dropping
    }
}

/// A pin together with its phase markers.
pub struct PinEntry {
    pub pin: Pin,
    pub markers: PinMarkers,
}

} // verus!
