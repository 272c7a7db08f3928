//! Height-to-time estimation, and the boundary to the system clock and
//! the local calendar.

use vstd::prelude::*;

use crate::records::{HistoryTxid, UtxoTxid};

verus! {

/// Block height of the reference point used for height-to-time
/// estimation.
pub const REFERENCE_HEIGHT: i32 = 733961;

/// Unix timestamp (seconds) at which the reference block was mined.
pub const REFERENCE_TIME: i64 = 1651158666;

/// Average spacing between consecutive blocks, in seconds.
pub const BLOCK_SPACING_SECS: i64 = 600;

/// Expected Unix timestamp of a block at the given height, computed
/// from the reference block and the average block spacing. A
/// non-positive height stands for "not yet mined" and maps to the
/// supplied current time, not to any fixed timestamp.
pub open spec fn height_timestamp(height: i32, now: i64) -> int {
    if height <= 0 {
        now as int
    } else {
        REFERENCE_TIME + (height - REFERENCE_HEIGHT) * BLOCK_SPACING_SECS
    }
}

/// Estimate the Unix timestamp at which a block of the given height was
/// (or will be) mined. Heights at or below zero denote unconfirmed data
/// and map to `now`, the caller-supplied current time.
pub fn height_timestamp_est(height: i32, now: i64) -> (r: i64)
    ensures
        r == height_timestamp(height, now),
        height <= 0 ==> r == now,
{
    if height <= 0 {
        now
    } else {
        REFERENCE_TIME + (height as i64 - REFERENCE_HEIGHT as i64) * BLOCK_SPACING_SECS
    }
}

/// Relies on chrono::Local::now, read as Unix seconds. The result
/// depends on the system clock, so nothing is promised of it.
#[verifier::external_body]
pub(crate) fn now_timestamp() -> i64 {
    chrono::Local::now().timestamp()
}

/// Relies on chrono::DateTime::from_timestamp and DateTime::format to
/// render a timestamp as a local date and time. The result depends on
/// the machine's time zone, so nothing is promised of it; a timestamp
/// chrono cannot represent renders as the empty string.
#[verifier::external_body]
pub(crate) fn format_local_datetime(ts: i64) -> String {
    match chrono::DateTime::from_timestamp(ts, 0) {
        Some(dt) => dt.with_timezone(&chrono::Local).format("%F %l %P").to_string(),
        None => String::new(),
    }
}

/// Estimate the Unix timestamp of a block at the given height; a height
/// at or below zero reads the clock instead.
pub fn height_date_time_est(height: i32) -> (r: i64)
    ensures
        height > 0 ==> r == height_timestamp(height, 0),
{
    if height <= 0 {
        now_timestamp()
    } else {
        height_timestamp_est(height, 0)
    }
}

impl HistoryTxid {
    /// Estimated Unix timestamp of this entry's block; the current time
    /// while it is unconfirmed.
    pub fn date_time_est(&self) -> (r: i64)
        ensures
            self.height > 0 ==> r == height_timestamp(self.height, 0),
    {
        height_date_time_est(self.height)
    }

    /// Human-readable mining information: exactly "pending" while the
    /// entry is unconfirmed, else the estimated local date and time.
    pub fn mining_info(&self) -> (r: String)
        ensures
            self.height == -1 ==> r@ == "pending"@,
    {
        if self.height == -1 {
            "pending".to_owned()
        } else {
            format_local_datetime(self.date_time_est())
        }
    }
}

impl UtxoTxid {
    /// Estimated Unix timestamp of this output's block; the current
    /// time while it is unconfirmed.
    pub fn date_time_est(&self) -> (r: i64)
        requires
            self.height < 0x8000_0000u32,
        ensures
            self.height > 0 ==> r == height_timestamp(self.height as i32, 0),
    {
        height_date_time_est(self.height as i32)
    }

    /// Human-readable mining information: exactly "mempool" while the
    /// output is unconfirmed, else the estimated local date and time.
    pub fn mining_info(&self) -> (r: String)
        requires
            self.height < 0x8000_0000u32,
        ensures
            self.height == 0 ==> r@ == "mempool"@,
    {
        if self.height == 0 {
            "mempool".to_owned()
        } else {
            format_local_datetime(self.date_time_est())
        }
    }
}

} // verus!
