//! The messages that the game's steps send one another.
use vstd::prelude::*;

verus! {

/// Asks that the pin with this index be triggered.
#[derive(Debug, Clone, Copy, PartialEq, Eq, Structural)]
pub struct TriggerPin(pub usize);

/// Asks whether the lock is now open.
#[derive(Debug, Clone, Copy, PartialEq, Eq, Structural)]
pub struct CheckWin;

/// Asks that the active pin be set at its current height.
#[derive(Debug, Clone, Copy, PartialEq, Eq, Structural)]
pub struct TryUnlockPin;

} // verus!
