//! Offsets from the start of an episode, counted in milliseconds.
use vstd::prelude::*;

verus! {

/// Milliseconds in a second.
pub const MS_PER_SECOND: i64 = 1000;

/// Milliseconds in a minute.
pub const MS_PER_MINUTE: i64 = 60_000;

/// Milliseconds in an hour.
pub const MS_PER_HOUR: i64 = 3_600_000;

/// An offset of elapsed time from the start of an episode, with millisecond
/// resolution. Negative values can be built and are carried through; the
/// codecs never panic on them.
#[derive(Clone, Copy, Debug, PartialEq, Eq, Structural, PartialOrd, Ord, Hash)]
pub struct Duration {
    /// The offset in milliseconds.
    pub ms: i64,
}

/// Whole units of `unit` milliseconds in `ms`, truncated toward zero.
pub open spec fn whole_units(ms: int, unit: int) -> int
    recommends
        unit > 0,
{
    if ms >= 0 {
        ms / unit
    } else {
        -((-ms) / unit)
    }
}

impl Duration {
    /// The empty offset.
    pub fn zero() -> (r: Duration)
        ensures
            r.ms == 0,
    {
        Duration { ms: 0 }
    }

    pub fn milliseconds(ms: i64) -> (r: Duration)
        ensures
            r.ms == ms,
    {
        Duration { ms }
    }

    pub fn seconds(s: i64) -> (r: Duration)
        requires
            i64::MIN <= s * MS_PER_SECOND <= i64::MAX,
        ensures
            r.ms == s * MS_PER_SECOND,
    {
        Duration { ms: s * MS_PER_SECOND }
    }

    pub fn minutes(m: i64) -> (r: Duration)
        requires
            i64::MIN <= m * MS_PER_MINUTE <= i64::MAX,
        ensures
            r.ms == m * MS_PER_MINUTE,
    {
        Duration { ms: m * MS_PER_MINUTE }
    }

    pub fn hours(h: i64) -> (r: Duration)
        requires
            i64::MIN <= h * MS_PER_HOUR <= i64::MAX,
        ensures
            r.ms == h * MS_PER_HOUR,
    {
        Duration { ms: h * MS_PER_HOUR }
    }

    /// The sum of two offsets.
    pub fn plus(self, other: Duration) -> (r: Duration)
        requires
            i64::MIN <= self.ms + other.ms <= i64::MAX,
        ensures
            r.ms == self.ms + other.ms,
    {
        Duration { ms: self.ms + other.ms }
    }

    pub fn num_milliseconds(&self) -> (r: i64)
        ensures
            r == self.ms,
    {
        self.ms
    }

    /// Whole seconds, truncated toward zero.
    pub fn num_seconds(&self) -> (r: i64)
        ensures
            r == whole_units(self.ms as int, MS_PER_SECOND as int),
    {
        if self.ms >= 0 {
            self.ms / MS_PER_SECOND
        } else {
            let magnitude: u64 = (-(self.ms + 1)) as u64 + 1;
            -((magnitude / 1000) as i64)
        }
    }
}

} // verus!
