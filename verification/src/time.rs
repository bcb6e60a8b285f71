//! Lengths of time.
use std::time::Duration;
use vstd::prelude::*;

verus! {

/// The length of time of `secs` whole seconds.
pub uninterp spec fn seconds(secs: u64) -> Duration;

/// The length of time of `millis` whole milliseconds.
pub uninterp spec fn milliseconds(millis: u64) -> Duration;

/// `Duration::from_secs`: the length of that many seconds, and the same length
/// for the same number.
pub assume_specification[ Duration::from_secs ](secs: u64) -> (r: Duration)
    ensures
        r == seconds(secs),
;

/// `Duration::from_millis`: the length of that many milliseconds, and the same
/// length for the same number.
pub assume_specification[ Duration::from_millis ](millis: u64) -> (r: Duration)
    ensures
        r == milliseconds(millis),
;

} // verus!
