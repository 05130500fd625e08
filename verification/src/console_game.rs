//! The frame-pacing companion loop: a fixed-tick schedule with a
//! drift-correcting sleep and a rolling frame-rate report.
//!
//! Wall time comes in from the embedding loop as plain nanosecond
//! and millisecond counts; the decisions — how long to suspend and
//! what rate to report — are computed here.

use vstd::prelude::*;
use vstd::arithmetic::mul::{lemma_mul_nonnegative, lemma_mul_upper_bound};

verus! {

/// Pacing state of the companion loop: how many frames have been
/// rendered and how long one frame should take.
pub struct Game {
    pub frame_count: u32,
    pub frame_time_ns: u64,
}

impl Default for Game {
    /// A fresh pacing state aimed at 60 frames a second.
    fn default() -> (g: Game)
        ensures
            g.frame_count == 0,
            g.frame_time_ns == 16_666_667,
    {
        Game { frame_count: 0, frame_time_ns: 16_666_667 }
    }
}

impl Game {
    /// Account for one rendered frame and say how long the thread
    /// should suspend: until the ideal cumulative time of the new
    /// frame count, a drift-correcting sleep rather than a fixed
    /// per-frame one.
    pub fn end_of_frame(&mut self, elapsed_ns: u64) -> (sleep_ns: u64)
        requires
            old(self).frame_count < u32::MAX,
            old(self).frame_time_ns <= 4_000_000_000,
        ensures
            final(self).frame_count == old(self).frame_count + 1,
            final(self).frame_time_ns == old(self).frame_time_ns,
            sleep_ns == (if elapsed_ns < (old(self).frame_count + 1) * old(self).frame_time_ns {
                (old(self).frame_count + 1) * old(self).frame_time_ns - elapsed_ns
            } else {
                0
            }),
    {
        self.frame_count = self.frame_count + 1;
        proof {
            lemma_mul_nonnegative(self.frame_count as int, self.frame_time_ns as int);
            lemma_mul_upper_bound(
                self.frame_count as int,
                0x1_0000_0000,
                self.frame_time_ns as int,
                4_000_000_000,
            );
        }
        let target_ns: u64 = (self.frame_count as u64) * self.frame_time_ns;
        if elapsed_ns < target_ns {
            target_ns - elapsed_ns
        } else {
            0
        }
    }
}

/// Placeholder for the rendering collaborator, which draws one
/// frame and is outside the simulation.
pub fn render_frame() {
}

/// The instantaneous frame rate, in hundredths of a frame a second,
/// once more than one frame has been rendered and more than one
/// second of wall time has passed: the frame count over the elapsed
/// time less one second — the approximation the pacing loop reports,
/// not a true rolling window.
pub fn calculate_frame_rate(frame_count: u32, elapsed_ms: u64) -> (rate: Option<u64>)
    ensures
        rate is Some <==> frame_count > 1 && elapsed_ms > 1000,
        frame_count > 1 && elapsed_ms > 1000 ==> rate == Some(
            ((frame_count * 100_000) as u64 / (elapsed_ms - 1000) as u64) as u64,
        ),
{
    if frame_count > 1 && elapsed_ms > 1000 {
        let scaled: u64 = (frame_count as u64) * 100_000;
        Some(scaled / (elapsed_ms - 1000))
    } else {
        None
    }
}

} // verus!
