use vstd::prelude::*;

verus! {

/// Where a presentation time stands against the present: how many nanoseconds ago, or how
/// many from now (zero counts as now, in the future).
#[derive(Debug, Clone, Copy, PartialEq, Eq, Structural)]
pub enum PtsOffset {
    Past(u128),
    Future(u128),
}

impl PtsOffset {
    /// The offset of the time `pts` seen at the time `now`, both in nanoseconds from one
    /// origin: past by `now - pts` when that is positive, else future by `pts - now`.
    pub fn decode(pts: u128, now: u128) -> (r: PtsOffset)
        ensures
            now > pts ==> r == PtsOffset::Past((now - pts) as u128),
            now <= pts ==> r == PtsOffset::Future((pts - now) as u128),
    {
        if now > pts {
            PtsOffset::Past(now - pts)
        } else {
            PtsOffset::Future(pts - now)
        }
    }

    /// Whether the time has passed.
    pub fn is_past(&self) -> (r: bool)
        ensures
            r == (*self is Past),
    {
        match self {
            PtsOffset::Past(_) => true,
            PtsOffset::Future(_) => false,
        }
    }

    /// How far the time is from the present, either way.
    pub fn delta(&self) -> (r: u128)
        ensures
            r == match *self {
                PtsOffset::Past(d) => d,
                PtsOffset::Future(d) => d,
            },
    {
        match self {
            PtsOffset::Past(d) => *d,
            PtsOffset::Future(d) => *d,
        }
    }

    /// How long ago the time was, zero for a time to come.
    pub fn past(&self) -> (r: u128)
        ensures
            r == match *self {
                PtsOffset::Past(d) => d,
                PtsOffset::Future(_) => 0,
            },
    {
        match self {
            PtsOffset::Past(d) => *d,
            PtsOffset::Future(_) => 0,
        }
    }

    /// How long until the time, zero for a time gone by.
    pub fn future(&self) -> (r: u128)
        ensures
            r == match *self {
                PtsOffset::Past(_) => 0,
                PtsOffset::Future(d) => d,
            },
    {
        match self {
            PtsOffset::Past(_) => 0,
            PtsOffset::Future(d) => *d,
        }
    }
}

} // verus!
