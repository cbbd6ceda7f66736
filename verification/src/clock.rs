//! Trusted boundary to the system clock and calendar rendering.
use vstd::prelude::*;

verus! {

/// Latest timestamp the engine renders: 9999-12-31T23:59:59 UTC.
pub const MAX_TIMESTAMP: u64 = 253402300799;

/// The RFC 3339 rendering of an epoch-seconds timestamp in UTC: a function
/// of the timestamp alone.
pub uninterp spec fn rfc3339_utc(secs: u64) -> Seq<char>;

/// Relies on chrono's `DateTime::from_timestamp` and `to_rfc3339`: within
/// the supported range the rendering is a function of the timestamp alone.
#[verifier::external_body]
pub(crate) fn format_rfc3339(secs: u64) -> (r: String)
    requires
        secs <= MAX_TIMESTAMP,
    ensures
        r@ == rfc3339_utc(secs),
{
    let dt = chrono::DateTime::<chrono::Utc>::from_timestamp(secs as i64, 0);
    dt.expect("timestamp within the supported range").to_rfc3339()
}

/// Relies on chrono's `Utc::now`: seconds since the Unix epoch, read from
/// the system clock. Nothing is promised of the value. Aborts only when the
/// system clock reports a time before the epoch.
#[verifier::external_body]
pub(crate) fn now_epoch_seconds() -> (r: i64) {
    chrono::Utc::now().timestamp()
}

} // verus!
