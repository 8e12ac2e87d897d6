//! Scalar ranges.
//!
//! An interval may be empty (`min > max`); `T_LIMIT` stands in for
//! infinity, far beyond any parametric distance a scene can produce.

use vstd::prelude::*;
use crate::fixed::T_LIMIT;

verus! {

/// An inclusive scalar range, possibly empty.
#[derive(Clone, Copy, PartialEq, Eq, Structural, Debug)]
pub struct Interval {
    pub min: i64,
    pub max: i64,
}

/// Endpoints within the finite band the geometry works in.
pub open spec fn ivl_bounded(i: Interval, b: int) -> bool {
    -b <= i.min <= b && -b <= i.max <= b
}

impl Interval {
    pub fn new(min: i64, max: i64) -> (r: Interval)
        ensures
            r == (Interval { min, max }),
    {
        Interval { min, max }
    }

    /// The smallest interval containing both arguments.
    pub fn new_from_interval(a: Interval, b: Interval) -> (r: Interval)
        ensures
            r.min == if a.min <= b.min { a.min } else { b.min },
            r.max == if a.max >= b.max { a.max } else { b.max },
    {
        Interval {
            min: if a.min <= b.min { a.min } else { b.min },
            max: if a.max >= b.max { a.max } else { b.max },
        }
    }

    /// The signed width; negative for an empty interval.
    pub fn size(&self) -> (r: i64)
        requires
            i64::MIN <= self.max - self.min <= i64::MAX,
        ensures
            r == self.max - self.min,
    {
        self.max - self.min
    }

    /// Closed-range membership.
    pub fn contains(&self, x: i64) -> (r: bool)
        ensures
            r == (self.min <= x && x <= self.max),
    {
        self.min <= x && x <= self.max
    }

    /// Open-range membership.
    pub fn surrounds(&self, x: i64) -> (r: bool)
        ensures
            r == (self.min < x && x < self.max),
    {
        self.min < x && x < self.max
    }

    /// The empty interval: inverted infinite endpoints.
    pub fn empty() -> (r: Interval)
        ensures
            r == (Interval { min: T_LIMIT as i64, max: -T_LIMIT as i64 }),
    {
        Interval { min: T_LIMIT, max: -T_LIMIT }
    }

    /// The interval of every representable distance.
    pub fn universe() -> (r: Interval)
        ensures
            r == (Interval { min: -T_LIMIT as i64, max: T_LIMIT as i64 }),
    {
        Interval { min: -T_LIMIT, max: T_LIMIT }
    }

    /// The nearest value inside the interval.
    pub fn clamp(&self, x: i64) -> (r: i64)
        ensures
            r == if x < self.min {
                self.min
            } else if x > self.max {
                self.max
            } else {
                x
            },
    {
        if x < self.min {
            self.min
        } else if x > self.max {
            self.max
        } else {
            x
        }
    }

    /// Widened symmetrically by half the given amount on each side.
    pub fn expand(&self, delta: i64) -> (r: Interval)
        requires
            0 <= delta,
            i64::MIN <= self.min - delta / 2 <= i64::MAX,
            i64::MIN <= self.max + delta / 2 <= i64::MAX,
        ensures
            r.min == self.min - delta / 2,
            r.max == self.max + delta / 2,
    {
        let pad = delta / 2;
        Interval { min: self.min - pad, max: self.max + pad }
    }

    /// Shifted by an offset.
    pub fn shift(&self, offset: i64) -> (r: Interval)
        requires
            i64::MIN <= self.min + offset <= i64::MAX,
            i64::MIN <= self.max + offset <= i64::MAX,
        ensures
            r.min == self.min + offset,
            r.max == self.max + offset,
    {
        Interval { min: self.min + offset, max: self.max + offset }
    }
}

} // verus!
