//! Wall-clock sampling.
//!
//! The store stamps every local mutation with the current second. Nothing
//! is promised of the sampled value: the monotone-per-key rule in the
//! store holds whatever the clock returns.

use vstd::prelude::*;

verus! {

/// Relies on chrono's `Utc::now().timestamp()`: the number of non-leap
/// seconds since the Unix epoch, as read from the system clock. The
/// result depends on the machine's clock, so nothing is stated of it.
#[verifier::external_body]
pub fn now_seconds() -> i64 {
    chrono::Utc::now().timestamp()
}

} // verus!
