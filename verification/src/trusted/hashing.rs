use std::hash::{Hash, Hasher};
use vstd::prelude::*;

use crate::endpoint::Endpoint;

verus! {

/// The hash of an endpoint under `ahash::AHasher::default()`, fed through
/// the endpoint's derived `Hash`. AHasher's output differs between builds
/// and machines (it picks its algorithm by CPU features), so nothing is
/// stated of the result.
#[verifier::external_body]
pub(crate) fn endpoint_ahash(e: &Endpoint) -> (h: u64) {
    let mut hasher = ahash::AHasher::default();
    e.hash(&mut hasher);
    hasher.finish()
}

} // verus!
