//! Points in time.

use vstd::prelude::*;

verus! {

/// A timestamp represented as the number of milliseconds since the unix epoch.
#[derive(Clone, Copy, Debug, Hash, PartialEq, Eq, Structural)]
pub struct MilliSecondsSinceUnixEpoch(pub u64);

/// The timestamp, where there is one, as a number of milliseconds.
pub open spec fn millis(time: Option<MilliSecondsSinceUnixEpoch>) -> Option<u64> {
    match time {
        Some(t) => Some(t.0),
        None => None,
    }
}

} // verus!
