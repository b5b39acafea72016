use vstd::prelude::*;

verus! {

/// The largest representable scalar, standing in for `+infinity` in
/// interval bounds (it is only ever compared, never computed with).
pub const INFINITY: i128 = i128::MAX;

/// The counterpart of `INFINITY` for the lower bound.
pub const NEG_INFINITY: i128 = -i128::MAX;

/// A closed scalar range `[min, max]`, bounding valid ray parameters and
/// clamping colour channels.
#[derive(Debug, Clone, Copy, PartialEq, Eq, Structural)]
pub struct Interval {
    pub min: i128,
    pub max: i128,
}

impl Interval {
    pub open spec fn spec_contains(self, x: int) -> bool {
        self.min <= x <= self.max
    }

    pub open spec fn spec_surrounds(self, x: int) -> bool {
        self.min < x < self.max
    }

    pub open spec fn spec_clamp(self, x: int) -> int {
        if x < self.min {
            self.min as int
        } else if x > self.max {
            self.max as int
        } else {
            x
        }
    }

    pub fn new(min: i128, max: i128) -> (r: Self)
        ensures
            r.min == min,
            r.max == max,
    {
        Self { min, max }
    }

    /// The empty interval: no scalar lies inside it.
    pub fn empty() -> (r: Self)
        ensures
            r.min == INFINITY,
            r.max == NEG_INFINITY,
    {
        Self { min: INFINITY, max: NEG_INFINITY }
    }

    /// The interval holding every scalar.
    pub fn universe() -> (r: Self)
        ensures
            r.min == NEG_INFINITY,
            r.max == INFINITY,
    {
        Self { min: NEG_INFINITY, max: INFINITY }
    }

    /// Closed-inclusive membership test.
    pub fn contains(&self, x: i128) -> (r: bool)
        ensures
            r == self.spec_contains(x as int),
    {
        self.min <= x && x <= self.max
    }

    /// Open-exclusive membership test; used for hit-parameter validity so
    /// that the surface itself (the endpoint) is excluded.
    pub fn surrounds(&self, x: i128) -> (r: bool)
        ensures
            r == self.spec_surrounds(x as int),
    {
        self.min < x && x < self.max
    }

    /// Clamp a scalar into `[min, max]`.
    pub fn clamp(&self, x: i128) -> (r: i128)
        requires
            self.min <= self.max,
        ensures
            r == self.spec_clamp(x as int),
            self.min <= r <= self.max,
    {
        if x < self.min {
            self.min
        } else if x > self.max {
            self.max
        } else {
            x
        }
    }
}

impl Default for Interval {
    /// The default interval is the universe.
    fn default() -> (r: Self)
        ensures
            r.min == NEG_INFINITY,
            r.max == INFINITY,
    {
        Self::universe()
    }
}

} // verus!
