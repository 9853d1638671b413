//! Per-stream timing continuity of second-revision sample batches.
//!
//! Each stream keeps the sample period it started with, and each batch must
//! begin after the last row of the stream's previous batch.

use std::collections::HashMap;

use vstd::prelude::*;

use crate::capture_history::decimal;
use crate::scope_format::numbered_message;

verus! {

/// Why a batch breaks its stream's timing.
#[derive(Clone, Copy, Debug, PartialEq, Eq, Structural)]
pub enum StreamTimingError {
    /// The timestamp of the batch's last row does not fit in 64 bits.
    TimestampOverflow,
    /// The stream's sample period changed.
    PeriodChanged(u16),
    /// The batch does not start after the stream's previous batch ended.
    NotMonotonic(u16),
}

/// The words `message` gives for each refusal.
pub open spec fn stream_timing_error_text(e: StreamTimingError) -> Seq<char> {
    match e {
        StreamTimingError::TimestampOverflow => "V2 sample timestamp overflow"@,
        StreamTimingError::PeriodChanged(id) => "V2 stream "@ + decimal(id as nat) + " changed sample_period_ticks during the session"@,
        StreamTimingError::NotMonotonic(id) => "V2 stream "@ + decimal(id as nat) + " timestamp is not monotonic with row sequence"@,
    }
}

impl StreamTimingError {
    /// The refusal in words.
    pub fn message(&self) -> (r: String)
        ensures
            r@ == stream_timing_error_text(*self),
    {
        match self {
            StreamTimingError::TimestampOverflow => "V2 sample timestamp overflow".to_string(),
            StreamTimingError::PeriodChanged(id) => numbered_message(
                "V2 stream ",
                *id as u64,
                " changed sample_period_ticks during the session",
            ),
            StreamTimingError::NotMonotonic(id) => numbered_message(
                "V2 stream ",
                *id as u64,
                " timestamp is not monotonic with row sequence",
            ),
        }
    }
}

/// The timing record after a batch of `rows` rows of stream `stream_id`,
/// sampled every `period` ticks from `timestamp`: the stream keeps its period
/// and the timestamp of its last row; or why the batch is refused.
pub open spec fn timing_after(
    timing: Map<u16, (u32, u64)>,
    stream_id: u16,
    period: u32,
    timestamp: u64,
    rows: nat,
) -> Result<Map<u16, (u32, u64)>, StreamTimingError> {
    let last_offset = period * (if rows > 0 {
        rows - 1
    } else {
        0
    });
    if last_offset > u64::MAX || timestamp + last_offset > u64::MAX {
        Err(StreamTimingError::TimestampOverflow)
    } else if timing.contains_key(stream_id) && timing[stream_id].0 != period {
        Err(StreamTimingError::PeriodChanged(stream_id))
    } else if timing.contains_key(stream_id) && timestamp <= timing[stream_id].1 {
        Err(StreamTimingError::NotMonotonic(stream_id))
    } else {
        Ok(timing.insert(stream_id, (period, (timestamp + last_offset) as u64)))
    }
}

/// Checks a batch against its stream's timing record and, when it passes,
/// records the batch's period and last timestamp; a refused batch leaves the
/// record unchanged.
pub fn validate_v2_stream_timing(
    timing: &mut HashMap<u16, (u32, u64)>,
    stream_id: u16,
    sample_period_ticks: u32,
    timestamp_ticks: u64,
    row_count: usize,
) -> (r: Result<(), StreamTimingError>)
    ensures
        match timing_after(old(timing)@, stream_id, sample_period_ticks, timestamp_ticks, row_count as nat) {
            Ok(m) => r is Ok && final(timing)@ == m,
            Err(e) => r == Err::<(), StreamTimingError>(e) && final(timing)@ == old(timing)@,
        },
{
    let rows = row_count as u64;
    let steps = if rows > 0 {
        rows - 1
    } else {
        0
    };
    let last_offset = match (sample_period_ticks as u64).checked_mul(steps) {
        Some(x) => x,
        None => return Err(StreamTimingError::TimestampOverflow),
    };
    let last_timestamp = match timestamp_ticks.checked_add(last_offset) {
        Some(x) => x,
        None => return Err(StreamTimingError::TimestampOverflow),
    };
    match timing.get(&stream_id) {
        Some(previous) => {
            let (period, previous_last) = *previous;
            if period != sample_period_ticks {
                return Err(StreamTimingError::PeriodChanged(stream_id));
            }
            if timestamp_ticks <= previous_last {
                return Err(StreamTimingError::NotMonotonic(stream_id));
            }
        },
        None => {},
    }
    timing.insert(stream_id, (sample_period_ticks, last_timestamp));
    Ok(())
}

} // verus!
