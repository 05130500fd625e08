//! Fixed-timestep arcade shooter simulation core.
//!
//! A player-controlled cannon defends against a descending, oscillating
//! grid of aliens exchanging projectiles.  All positions, sizes, scale
//! factors and speeds are fixed-point integers counted in tenths of a
//! pixel, so every kinematic and collision rule is exact integer
//! arithmetic.  Rendering, window events and wall-clock time live with
//! the embedding program; the simulation only consumes plain values.

use vstd::prelude::*;

pub mod collision;
pub mod console_game;
pub mod entities;
pub mod game;

verus! {

/// One whole pixel, in the fixed-point unit (tenths of a pixel).
pub const FP_ONE: i64 = 10;

/// Bound on footprint sizes, scale factors, speed magnitudes and the
/// formation's height modifier; generous next to the real values,
/// small next to the machine's integer range.
pub const SIZE_LIMIT: i64 = 1_000_000;

/// Bound on coordinate magnitudes in a well-formed game session.
pub const POS_LIMIT: i64 = 1_000_000_000_000;

/// Looser coordinate bound that the intermediate states of one frame
/// stay under; every per-frame step is proved free of overflow below
/// this bound.
pub const POS_SLACK: i64 = 8_000_000_000_000;

} // verus!
