//! Time manager: converts monotonic real-clock readings into chart time,
//! honoring playback speed, pause, resume and seek. The host supplies the
//! raw clock readings (milliseconds from a monotonic source); everything
//! here is pure arithmetic over stored timestamps and never blocks.

use vstd::prelude::*;
use crate::chart::TIME_LIMIT;

verus! {

/// Largest playback speed, in thousandths (ten times normal speed).
pub const SPEED_MAX: i64 = 10_000;

/// Largest magnitude of a speed-scaled clock reading, in milliseconds.
pub const SCALED_LIMIT: i64 = 10_000_000_000;

/// Largest magnitude of the stored epoch.
pub const START_LIMIT: i64 = 40_000_000_000;

/// Converts monotonic clock readings into chart-relative milliseconds.
/// `start` is the scaled-clock epoch chart time zero corresponds to; while
/// paused, `pause_at` freezes the scaled clock.
pub struct TimeManager {
    pub speed: i64,
    pub start: i64,
    pub pause_at: Option<i64>,
}

impl TimeManager {
    /// A real-clock reading the manager accepts.
    pub open spec fn real_ok(reading: i64) -> bool {
        0 <= reading <= TIME_LIMIT
    }

    pub open spec fn wf(self) -> bool {
        &&& 0 < self.speed <= SPEED_MAX
        &&& -START_LIMIT <= self.start <= START_LIMIT
        &&& match self.pause_at {
            Option::Some(p) => 0 <= p <= SCALED_LIMIT,
            Option::None => true,
        }
    }

    /// The real clock scaled by the playback speed: elapsed real time is
    /// multiplied by the speed before it is added to chart time, so chart
    /// times stay consistent when the speed changes mid-session.
    pub open spec fn scaled(self, reading: i64) -> int {
        (reading * self.speed) / 1000
    }

    /// Chart time at the clock reading `reading`: frozen while paused.
    pub open spec fn spec_now(self, reading: i64) -> int {
        match self.pause_at {
            Option::Some(p) => p - self.start,
            Option::None => self.scaled(reading) - self.start,
        }
    }

    pub open spec fn is_paused(self) -> bool {
        self.pause_at is Some
    }

    /// A manager whose chart time reads zero at the given clock reading.
    pub fn new(reading: i64, speed: i64) -> (r: TimeManager)
        requires
            Self::real_ok(reading),
            0 < speed <= SPEED_MAX,
        ensures
            r.wf(),
            r.speed == speed,
            !r.is_paused(),
            r.spec_now(reading) == 0,
    {
        let s = scale_reading(reading, speed);
        TimeManager { speed, start: s, pause_at: None }
    }

    /// Current chart time, in milliseconds.
    pub fn now(&self, reading: i64) -> (r: i64)
        requires
            self.wf(),
            Self::real_ok(reading),
        ensures
            r == self.spec_now(reading),
    {
        let current = match self.pause_at {
            Option::Some(p) => p,
            Option::None => scale_reading(reading, self.speed),
        };
        current - self.start
    }

    pub fn paused(&self) -> (r: bool)
        ensures
            r == self.is_paused(),
    {
        self.pause_at.is_some()
    }

    /// Freeze chart time at the present reading.
    pub fn pause(&mut self, reading: i64)
        requires
            old(self).wf(),
            Self::real_ok(reading),
            !old(self).is_paused(),
        ensures
            final(self).wf(),
            final(self).is_paused(),
            final(self).speed == old(self).speed,
            final(self).spec_now(reading) == old(self).spec_now(reading),
            forall|other: i64| Self::real_ok(other) ==> final(self).spec_now(other) == old(self).spec_now(
                reading,
            ),
    {
        let s = scale_reading(reading, self.speed);
        self.pause_at = Some(s);
    }

    /// Unfreeze: the epoch shifts forward by the paused duration, so chart
    /// time continues seamlessly from the moment it was frozen.
    pub fn resume(&mut self, reading: i64)
        requires
            old(self).wf(),
            Self::real_ok(reading),
            old(self).is_paused(),
            // The real clock is monotonic: it has not gone back before the
            // instant the manager was paused at.
            old(self).pause_at->Some_0 <= old(self).scaled(reading),
            // The frozen chart time is within the chart's representable range.
            -SCALED_LIMIT <= old(self).pause_at->Some_0 - old(self).start <= SCALED_LIMIT,
        ensures
            final(self).wf(),
            !final(self).is_paused(),
            final(self).speed == old(self).speed,
            final(self).spec_now(reading) == old(self).spec_now(reading),
    {
        let frozen = match self.pause_at {
            Option::Some(p) => p,
            Option::None => 0,
        };
        let s = scale_reading(reading, self.speed);
        self.start = s - (frozen - self.start);
        self.pause_at = None;
    }

    /// Redefine the epoch so that chart time reads `to` at the present
    /// reading.
    pub fn seek(&mut self, reading: i64, to: i64)
        requires
            old(self).wf(),
            Self::real_ok(reading),
            !old(self).is_paused(),
            -TIME_LIMIT <= to <= TIME_LIMIT,
        ensures
            final(self).wf(),
            !final(self).is_paused(),
            final(self).speed == old(self).speed,
            final(self).spec_now(reading) == to,
    {
        let s = scale_reading(reading, self.speed);
        self.start = s - to;
    }

    /// Change the playback speed without a jump: the epoch is rebased so the
    /// chart time at the present reading is unchanged.
    pub fn set_speed(&mut self, reading: i64, speed: i64)
        requires
            old(self).wf(),
            Self::real_ok(reading),
            !old(self).is_paused(),
            0 < speed <= SPEED_MAX,
            -SCALED_LIMIT <= old(self).spec_now(reading) <= SCALED_LIMIT,
        ensures
            final(self).wf(),
            !final(self).is_paused(),
            final(self).speed == speed,
            final(self).spec_now(reading) == old(self).spec_now(reading),
    {
        let here = self.now(reading);
        let s = scale_reading(reading, speed);
        self.speed = speed;
        self.start = s - here;
    }
}

/// Scale a clock reading by a speed in thousandths.
fn scale_reading(reading: i64, speed: i64) -> (r: i64)
    requires
        0 <= reading <= TIME_LIMIT,
        0 < speed <= SPEED_MAX,
    ensures
        r == (reading * speed) / 1000,
        0 <= r <= SCALED_LIMIT,
{
    proof {
        assert(0 <= reading * speed <= 10_000_000_000_000) by (nonlinear_arith)
            requires
                0 <= reading <= 1_000_000_000,
                0 < speed <= 10_000,
        ;
        vstd::arithmetic::div_mod::lemma_div_pos_is_pos(reading * speed, 1000);
        vstd::arithmetic::div_mod::lemma_div_is_ordered(reading * speed, 10_000_000_000_000, 1000);
    }
    (reading * speed) / 1000
}

} // verus!
