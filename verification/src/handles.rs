//! Shared handles to records that several owners read.

use vstd::prelude::*;
use std::sync::Arc;

verus! {

/// `Arc::clone`: another handle to the same value.
#[verifier::external_body]
pub fn share<T>(a: &Arc<T>) -> (r: Arc<T>)
    ensures
        r == *a,
{
    Arc::clone(a)
}

} // verus!
