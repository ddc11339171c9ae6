//! Shared ownership: pointers to values that several owners hold.

use vstd::prelude::*;
use std::sync::Arc;

verus! {

/// Another pointer to the value behind `a`.
///
/// Trusted: calls `Arc::clone`, which the documentation says makes a new
/// pointer to the same allocation; the value pointed to is the same.
#[verifier::external_body]
pub(crate) fn share<T: ?Sized>(a: &Arc<T>) -> (r: Arc<T>)
    ensures
        r == *a,
{
    Arc::clone(a)
}

} // verus!
