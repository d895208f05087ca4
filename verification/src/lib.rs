//! Core of a data-driven narrative engine.
//!
//! A catalog of events, conditions and modifiers is loaded once; each tick the
//! scheduler resolves the active trigger set against the trigger registry,
//! picks at most one event to run, and the segment state machine walks that
//! event's segments, applying the chosen option's modifier to the world state.
//! Everything here is pure computation over plain values; reading
//! configuration files and talking to a presentation layer live outside this
//! crate.

#![verifier::loop_isolation(false)]

use vstd::prelude::*;

pub mod conditions;
pub mod events;
pub mod frontend;
pub mod game;
pub mod items;
pub mod map_system;
pub mod modifier;
pub mod player;
pub mod rng;
pub mod strutil;
pub mod systems;
pub mod time_system;
pub mod triggers;

verus! {

/// The original value clamped into `[lo, hi]`: an overshoot past `hi` lands on
/// `hi`, then an undershoot past `lo` lands on `lo`.
pub open spec fn clamp(x: int, lo: int, hi: int) -> int {
    let capped = if x > hi {
        hi
    } else {
        x
    };
    if capped < lo {
        lo
    } else {
        capped
    }
}

} // verus!
