//! Rules of a lock-picking mini game: six spring-loaded pins, a lockpick
//! that moves between them, and a limited stock of lockpicks.
//!
//! The library holds the discrete state of the game (which pin is locked,
//! triggered, dropping or unlocked; where the lockpick stands; how many
//! lockpicks are left) and every decision taken on it. Motion on screen,
//! timing and rendering are left to the program that embeds it.
pub mod components;
pub mod consts;
pub mod events;
pub mod laws;
pub mod random;
pub mod rules;
pub mod utils;
