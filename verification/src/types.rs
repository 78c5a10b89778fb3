//! Plain value types shared by the whole library, and the conversion between
//! timestamps and epoch days.

use vstd::prelude::*;

verus! {

/// Language code (ISO 639-1).
pub type LanguageCode = String;

/// Public key (hex string).
pub type PubkeyHex = String;

/// Event ID (hex string).
pub type EventId = String;

/// Unix timestamp in seconds.
pub type Timestamp = u64;

/// Epoch day (days since the Unix epoch).
pub type EpochDay = u32;

/// Confidence of a detection, held as the IEEE 754 double-precision bit
/// pattern of a value in `[0.0, 1.0]`. On non-negative values the order of
/// the bit patterns is the order of the values, so confidences are compared
/// as integers.
pub type Confidence = u64;

/// The confidence 1.0, the largest there is.
pub const CONFIDENCE_ONE: Confidence = 0x3FF0_0000_0000_0000;

/// Options for building language index.
#[derive(Clone, Debug)]
pub struct LanguageIndexOptions {
    /// Start timestamp (Unix seconds).
    pub since: Timestamp,
    /// End timestamp (Unix seconds).
    pub until: Timestamp,
    /// Maximum events to process (optional).
    pub max_events: Option<u32>,
    /// Confidence threshold (optional).
    pub conf_thresh: Option<Confidence>,
    /// Maximum languages per user (optional).
    pub max_langs_per_user: Option<u8>,
}

/// Options for computing metrics.
#[derive(Clone, Debug)]
pub struct MetricsOptions {
    /// Start timestamp (Unix seconds).
    pub since: Timestamp,
    /// End timestamp (Unix seconds).
    pub until: Timestamp,
    /// Target languages.
    pub languages: Vec<LanguageCode>,
    /// Granularity (currently only "day" supported).
    pub granularity: String,
    /// Window size in days (1=DAU, 7=WAU, 30=MAU, 365=YAU).
    pub window_days: u16,
}

/// Single data point in metrics result.
#[derive(Clone, Copy, Debug, PartialEq, Eq)]
pub struct MetricDataPoint {
    /// Epoch day.
    pub epoch_day: EpochDay,
    /// Count of active users.
    pub count: u32,
}

/// Number of seconds in one epoch day.
pub const SECONDS_PER_DAY: u64 = 86400;

/// The epoch day that holds `timestamp`.
pub open spec fn epoch_day_of(timestamp: int) -> int {
    timestamp / 86400
}

/// The first second of `epoch_day`.
pub open spec fn day_start(epoch_day: int) -> int {
    epoch_day * 86400
}

/// Helper to convert timestamp to epoch day.
pub fn timestamp_to_epoch_day(timestamp: Timestamp) -> (day: EpochDay)
    requires
        epoch_day_of(timestamp as int) <= u32::MAX,
    ensures
        day as int == epoch_day_of(timestamp as int),
{
    (timestamp / SECONDS_PER_DAY) as EpochDay
}

/// The epoch day that holds `timestamp`, or `None` where that day is beyond
/// the range of `EpochDay`.
pub fn checked_epoch_day(timestamp: Timestamp) -> (day: Option<EpochDay>)
    ensures
        day == if epoch_day_of(timestamp as int) <= u32::MAX {
            Some(epoch_day_of(timestamp as int) as u32)
        } else {
            None
        },
{
    let day: u64 = timestamp / SECONDS_PER_DAY;
    if day <= 0xffff_ffff {
        Some(day as EpochDay)
    } else {
        None
    }
}

/// Helper to convert epoch day to timestamp (start of day).
pub fn epoch_day_to_timestamp(epoch_day: EpochDay) -> (timestamp: Timestamp)
    ensures
        timestamp as int == day_start(epoch_day as int),
{
    epoch_day as Timestamp * SECONDS_PER_DAY
}

/// Converting the first second of a day back gives that day, the first second
/// of a day is a multiple of the day length, and every timestamp lies within
/// the day it converts to.
pub proof fn lemma_epoch_day_round_trip(epoch_day: int, timestamp: int)
    requires
        0 <= epoch_day,
        0 <= timestamp,
    ensures
        epoch_day_of(day_start(epoch_day)) == epoch_day,
        day_start(epoch_day) % 86400 == 0,
        day_start(epoch_day_of(timestamp)) <= timestamp < day_start(epoch_day_of(timestamp) + 1),
{
}

/// The epoch day never decreases as the timestamp grows.
pub proof fn lemma_epoch_day_monotonic(earlier: int, later: int)
    requires
        0 <= earlier <= later,
    ensures
        epoch_day_of(earlier) <= epoch_day_of(later),
{
}

} // verus!
