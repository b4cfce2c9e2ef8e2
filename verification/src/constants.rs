use vstd::prelude::*;

verus! {

/// Duration of each distribution window: 14 days in seconds. The end time
/// is always the start time plus this duration.
pub const DURATION: i64 = 14 * 24 * 60 * 60;

/// Maximum look-ahead when setting the start time: 90 days in seconds from
/// the call time.
pub const MAX_START_TIME: i64 = 90 * 24 * 60 * 60;

} // verus!
