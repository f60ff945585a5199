use vstd::prelude::*;

verus! {

/// Number of rises in the pattern of each pin.
pub const RISE_NUM: usize = 4;

/// Number of pins that start out unlocked.
pub const UNLOCKED_BY_DEFAULT_NUM: usize = 2;

/// Number of unlocked pins that may fall back after a missed pick.
pub const DROP_NUM_AFTER_FAIL: usize = 2;

/// Number of pins (tumblers) in the lock.
pub const TUMBLERS: usize = 6;

/// Chance that an automatic attempt opens the lock, as a ratio: one in twenty.
pub const AUTO_ATTEMPT_CHANCE_NUMERATOR: u32 = 1;

/// Denominator of the automatic attempt's chance.
pub const AUTO_ATTEMPT_CHANCE_DENOMINATOR: u32 = 20;

/// Chance that a missed pick breaks a lockpick, as a ratio: three in five.
pub const LOCKPICK_LOSS_CHANCE_NUMERATOR: u32 = 3;

/// Denominator of the lockpick loss chance.
pub const LOCKPICK_LOSS_CHANCE_DENOMINATOR: u32 = 5;

/// Chance that a rise of a pin is fast, as a ratio: one in two.
pub const FAST_RISE_CHANCE_NUMERATOR: u32 = 1;

/// Denominator of the fast rise chance.
pub const FAST_RISE_CHANCE_DENOMINATOR: u32 = 2;

/// Number of lockpicks the player starts with.
pub const STARTING_LOCKPICKS: u32 = 100;

} // verus!
