//! Speech-recognition output as plain values.
use vstd::prelude::*;

verus! {

/// A single recognised segment with its start and end times, in
/// centiseconds from the beginning of the audio buffer it came from.
pub struct TimestampedSegment {
    pub text: String,
    pub start_cs: i64,
    pub end_cs: i64,
}

} // verus!
