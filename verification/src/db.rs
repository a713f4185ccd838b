//! The persisted record and the wall clock that stamps it.
//!
//! The store itself lives with the application; the library builds the
//! records that are handed to it.

use vstd::prelude::*;

verus! {

/// A fraction of two counts, the denominator never zero.
#[derive(Debug, Clone, Copy, PartialEq, Eq, Structural)]
pub struct Ratio {
    pub numerator: u128,
    pub denominator: u128,
}

impl Ratio {
    /// The fraction has a denominator.
    pub open spec fn wf(self) -> bool {
        self.denominator > 0
    }

    /// Whether the fraction is zero.
    pub open spec fn is_zero(self) -> bool {
        self.numerator == 0
    }
}

/// One downsampled summary of a symbol's classification, as it is persisted.
#[derive(Debug, Clone)]
pub struct MarketAnalysisRecord {
    pub symbol: String,
    /// Seconds since the Unix epoch.
    pub timestamp: u64,
    pub total_orders: i64,
    pub human_orders: i64,
    pub bot_orders: i64,
    pub human_ratio: Ratio,
}

#[verifier::external_type_specification]
#[verifier::external_body]
pub struct ExSystemTime(std::time::SystemTime);

/// Calls `std::time::SystemTime::now`. Trusted; nothing is claimed of the
/// time that comes back.
#[verifier::external_body]
fn system_now() -> std::time::SystemTime {
    std::time::SystemTime::now()
}

/// Calls `std::time::SystemTime::duration_since` against the Unix epoch.
/// Trusted; `None` stands for the error of a clock set before the epoch.
#[verifier::external_body]
fn since_epoch(t: &std::time::SystemTime) -> Option<std::time::Duration> {
    match t.duration_since(std::time::UNIX_EPOCH) {
        Ok(d) => Some(d),
        Err(_) => None,
    }
}

/// Calls `std::time::Duration::as_secs`. Trusted; nothing is claimed of the
/// count.
#[verifier::external_body]
fn whole_seconds(d: &std::time::Duration) -> u64 {
    d.as_secs()
}

/// The wall clock in whole seconds since the Unix epoch; zero where the
/// clock stands before the epoch. See `timestamp_from` for each reading.
pub fn get_current_timestamp() -> u64 {
    let now = system_now();
    let elapsed = match since_epoch(&now) {
        Some(elapsed) => Some(whole_seconds(&elapsed)),
        None => None,
    };
    timestamp_from(elapsed)
}

/// The timestamp for a reading of the clock: the whole seconds since the
/// epoch, and zero for a clock that stands before the epoch.
pub open spec fn timestamp_of(elapsed: Option<u64>) -> u64 {
    match elapsed {
        Some(seconds) => seconds,
        None => 0,
    }
}

/// Turns a reading of the clock into a timestamp. `elapsed` is the whole
/// seconds since the epoch, or `None` where the clock stands before it.
pub fn timestamp_from(elapsed: Option<u64>) -> (r: u64)
    ensures
        r == timestamp_of(elapsed),
{
    match elapsed {
        Some(seconds) => seconds,
        None => 0,
    }
}

} // verus!
