//! Closed scalar ranges over fixed-point values, used both to bound valid
//! hit parameters and to clamp color channels.

use vstd::prelude::*;

verus! {

#[derive(Clone, Copy, Debug, PartialEq, Eq, Structural)]
pub struct Interval {
    pub min: i64,
    pub max: i64,
}

pub open spec fn clamp_spec(iv: Interval, x: int) -> int {
    if x < iv.min {
        iv.min as int
    } else if x > iv.max {
        iv.max as int
    } else {
        x
    }
}

impl Interval {
    /// The empty range: every containment test fails.
    pub fn new_empty() -> (r: Interval)
        ensures
            r.min == i64::MAX,
            r.max == i64::MIN,
    {
        Interval { min: i64::MAX, max: i64::MIN }
    }

    pub fn new(min: i64, max: i64) -> (r: Interval)
        ensures
            r.min == min,
            r.max == max,
    {
        Interval { min, max }
    }

    pub fn size(&self) -> (r: i64)
        requires
            i64::MIN <= self.max - self.min <= i64::MAX,
        ensures
            r == self.max - self.min,
    {
        self.max - self.min
    }

    pub fn contains(&self, x: i64) -> (r: bool)
        ensures
            r == (self.min <= x && x <= self.max),
    {
        self.min <= x && x <= self.max
    }

    pub fn surrounds(&self, x: i64) -> (r: bool)
        ensures
            r == (self.min < x && x < self.max),
    {
        self.min < x && x < self.max
    }

    pub fn clamp(&self, x: i64) -> (r: i64)
        ensures
            r == clamp_spec(*self, x as int),
    {
        if x < self.min {
            return self.min;
        }
        if x > self.max {
            return self.max;
        }
        x
    }
}

} // verus!
