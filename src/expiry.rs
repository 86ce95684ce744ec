//! Deadlines measured in block height or block time.
use vstd::prelude::*;

verus! {

/// The block a call runs in.
#[derive(Clone, Copy, Debug, PartialEq, Eq, Structural)]
pub struct BlockInfo {
    pub height: u64,
    /// Nanoseconds since the epoch.
    pub time: u64,
}

/// When something lapses.
#[derive(Clone, Copy, Debug, PartialEq, Eq, Structural)]
pub enum Expiration {
    Never,
    AtHeight(u64),
    /// Nanoseconds since the epoch.
    AtTime(u64),
}

/// A deadline has passed from the block at which it is reached on.
pub open spec fn expired(e: Expiration, b: BlockInfo) -> bool {
    match e {
        Expiration::Never => false,
        Expiration::AtHeight(h) => b.height >= h,
        Expiration::AtTime(t) => b.time >= t,
    }
}

/// `a` lapses strictly before `b` wherever the two count in the same unit;
/// deadlines in different units, or that never lapse, are not ordered.
pub open spec fn precedes(a: Expiration, b: Expiration) -> bool {
    match (a, b) {
        (Expiration::AtHeight(x), Expiration::AtHeight(y)) => x < y,
        (Expiration::AtTime(x), Expiration::AtTime(y)) => x < y,
        _ => true,
    }
}

impl Expiration {
    pub fn is_expired(&self, block: &BlockInfo) -> (r: bool)
        ensures
            r == expired(*self, *block),
    {
        match self {
            Expiration::Never => false,
            Expiration::AtHeight(h) => block.height >= *h,
            Expiration::AtTime(t) => block.time >= *t,
        }
    }

    /// Whether `self` lapses strictly before `other`, where the two are
    /// comparable.
    pub fn precedes(&self, other: &Expiration) -> (r: bool)
        ensures
            r == precedes(*self, *other),
    {
        match (self, other) {
            (Expiration::AtHeight(x), Expiration::AtHeight(y)) => *x < *y,
            (Expiration::AtTime(x), Expiration::AtTime(y)) => *x < *y,
            _ => true,
        }
    }
}

} // verus!
