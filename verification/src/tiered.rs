//! A two-tiered cache: a fast first tier over a slower next tier.
//!
//! The host implements the asynchronous cache operations: a get reads the
//! first tier and falls back to the next, a hit in the first tier
//! short-circuiting; puts and invalidations fan out to both. For more
//! tiers, chain this type.

use vstd::prelude::*;

verus! {

/// Two caches composed into one, the first assumed faster.
#[derive(Clone)]
pub struct TieredCache<FirstCacheT, NextCacheT> {
    /// First cache.
    pub first: FirstCacheT,
    /// Next cache.
    pub next: NextCacheT,
}

impl<FirstCacheT, NextCacheT> TieredCache<FirstCacheT, NextCacheT> {
    /// Constructor.
    pub fn new(first: FirstCacheT, next: NextCacheT) -> (r: Self)
        ensures
            r == (TieredCache { first, next }),
    {
        TieredCache { first, next }
    }
}

} // verus!
