//! Rate limiting data types.
use vstd::prelude::*;

verus! {

/// A bucket id, for rate limiting.
pub type RateBucketId = u8;

/// The weight of an action, for rate limiting.
pub type RateWeight = u8;

/// The normalized total size of an action, for rate limiting.
pub type RateBytes = u8;

/// The bucket and the weight of a link.
#[derive(Debug, Clone, PartialEq, Eq, Hash, PartialOrd, Ord)]
pub struct LinkWeight {
    pub rate_bucket: RateBucketId,
    pub rate_weight: RateWeight,
}

impl Default for LinkWeight {
    /// The last bucket, with no weight.
    fn default() -> (r: Self)
        ensures
            r.rate_bucket == 255,
            r.rate_weight == 0,
    {
        Self { rate_bucket: 255, rate_weight: 0 }
    }
}

/// The bucket, the weight and the size of an entry.
#[derive(Debug, Clone, PartialEq, Eq, Hash, PartialOrd, Ord)]
pub struct EntryWeight {
    pub rate_bucket: RateBucketId,
    pub rate_weight: RateWeight,
    pub rate_bytes: RateBytes,
}

impl Default for EntryWeight {
    /// The last bucket, with no weight and no size.
    fn default() -> (r: Self)
        ensures
            r.rate_bucket == 255,
            r.rate_weight == 0,
            r.rate_bytes == 0,
    {
        Self { rate_bucket: 255, rate_weight: 0, rate_bytes: 0 }
    }
}

} // verus!
