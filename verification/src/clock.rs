//! The wall clock, in whole seconds since the Unix epoch.

use chrono::{DateTime, Utc};
use std::time::SystemTime;
use vstd::prelude::*;

verus! {

/// Reads the system clock with `SystemTime::now`, converts the instant with
/// `DateTime::<Utc>::from`, which takes an instant before the Unix epoch as
/// well as one after it, and takes its Unix timestamp. Nothing is claimed of
/// the value read.
#[verifier::external_body]
pub(crate) fn unix_now() -> i64 {
    DateTime::<Utc>::from(SystemTime::now()).timestamp()
}

} // verus!
