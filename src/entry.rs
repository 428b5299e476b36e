//! Options of the calls that read entries.
use vstd::prelude::*;

verus! {

/// What a read is after, which decides whether it goes to the network.
#[derive(PartialEq, Debug, Clone, Copy)]
pub enum GetStrategy {
    /// The latest metadata, falling back to the local cache when none is
    /// found; no network call for data this node is an authority for.
    Latest,
    /// The content, from local stores first and from the network when it is
    /// not found there.
    Content,
}

/// Options for controlling how a read works.
#[derive(PartialEq, Debug, Clone)]
pub struct GetOptions {
    pub strategy: GetStrategy,
}

impl GetOptions {
    /// Reads the content with the latest metadata it can get.
    pub fn latest() -> (r: Self)
        ensures
            r.strategy == GetStrategy::Latest,
    {
        Self { strategy: GetStrategy::Latest }
    }

    /// Reads the content without asking for the latest metadata.
    pub fn content() -> (r: Self)
        ensures
            r.strategy == GetStrategy::Content,
    {
        Self { strategy: GetStrategy::Content }
    }
}

impl Default for GetOptions {
    /// [`GetOptions::latest`].
    fn default() -> (r: Self)
        ensures
            r.strategy == GetStrategy::Latest,
    {
        Self::latest()
    }
}

} // verus!
