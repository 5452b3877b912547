use vstd::prelude::*;

use crate::text::{decimal, spell};

verus! {

/// The pace of simulated time: paused, or a whole multiple of real time.
/// Elapsed time is in microseconds.
#[derive(Clone, Copy, Debug)]
pub struct SimulationClock {
    pub paused: bool,
    pub speed: u32,
    pub elapsed_micros: u64,
}

impl Default for SimulationClock {
    fn default() -> (clock: SimulationClock)
        ensures
            !clock.paused,
            clock.speed == 1,
            clock.elapsed_micros == 0,
    {
        SimulationClock { paused: false, speed: 1, elapsed_micros: 0 }
    }
}

impl SimulationClock {
    /// Simulated time for a frame of `frame_micros`: none while paused, else the
    /// frame times the speed, held at the largest `u64` when that would not fit.
    pub open spec fn spec_scaled_delta(self, frame_micros: u64) -> int {
        if self.paused {
            0
        } else if frame_micros * self.speed <= u64::MAX {
            frame_micros * self.speed
        } else {
            u64::MAX as int
        }
    }

    /// A paused clock lets no time pass; a running one lets the frame pass `speed`
    /// times over, up to the largest `u64`.
    pub proof fn lemma_time_runs_at_speed(self, frame_micros: u64)
        ensures
            self.paused ==> self.spec_scaled_delta(frame_micros) == 0,
            !self.paused && frame_micros * self.speed <= u64::MAX ==> self.spec_scaled_delta(frame_micros)
                == frame_micros * self.speed,
            !self.paused && frame_micros * self.speed > u64::MAX ==> self.spec_scaled_delta(frame_micros)
                == u64::MAX,
    {
    }

    /// Simulated time that passes during a frame of `frame_micros` real time.
    pub fn scaled_delta(&self, frame_micros: u64) -> (delta: u64)
        ensures
            delta == self.spec_scaled_delta(frame_micros),
    {
        if self.paused {
            0
        } else {
            assert((frame_micros as u128) * (self.speed as u128) <= u128::MAX) by (nonlinear_arith)
                requires
                    frame_micros <= u64::MAX,
                    self.speed <= u32::MAX,
            ;
            let product: u128 = (frame_micros as u128) * (self.speed as u128);
            if product <= u64::MAX as u128 {
                product as u64
            } else {
                u64::MAX
            }
        }
    }

    /// What the clock reads as in the interface.
    pub open spec fn spec_label(self) -> Seq<char> {
        if self.paused {
            "Paused"@
        } else {
            decimal(self.speed as int) + "x"@
        }
    }

    pub fn label(&self) -> (text: String)
        ensures
            text@ == self.spec_label(),
    {
        proof {
            reveal_strlit("");
        }
        if self.paused {
            "Paused".to_owned()
        } else {
            spell("", self.speed as i64, "x", "")
        }
    }

    pub fn toggle_pause(&mut self)
        ensures
            final(self).paused == !old(self).paused,
            final(self).speed == old(self).speed,
            final(self).elapsed_micros == old(self).elapsed_micros,
    {
        self.paused = !self.paused;
    }

    /// Runs at `speed` times real time, unpausing the clock.
    pub fn set_speed(&mut self, speed: u32)
        ensures
            !final(self).paused,
            final(self).speed == speed,
            final(self).elapsed_micros == old(self).elapsed_micros,
    {
        self.paused = false;
        self.speed = speed;
    }

    /// One frame: the pause key flips the pause first, then the frame's simulated
    /// time is added to the elapsed time, which stops at the largest `u64`.
    pub fn advance(&mut self, frame_micros: u64, pause_pressed: bool)
        ensures
            final(self).paused == (if pause_pressed {
                !old(self).paused
            } else {
                old(self).paused
            }),
            final(self).speed == old(self).speed,
            final(self).elapsed_micros == (if old(self).elapsed_micros + final(self).spec_scaled_delta(
                frame_micros,
            ) <= u64::MAX {
                old(self).elapsed_micros + final(self).spec_scaled_delta(frame_micros)
            } else {
                u64::MAX as int
            }),
    {
        if pause_pressed {
            self.toggle_pause();
        }
        let delta = self.scaled_delta(frame_micros);
        self.elapsed_micros = self.elapsed_micros.saturating_add(delta);
    }
}

} // verus!
