use vstd::prelude::*;

verus! {

/// A point in time, held as seconds since the Unix epoch together with the
/// subsecond nanoseconds.  The engine never inspects a timestamp; it only
/// records the moment an account or a transaction was created.
#[derive(Clone, Copy, Debug, PartialEq, Eq, Structural)]
pub struct Timestamp {
    pub seconds: i64,
    pub nanos: u32,
}

/// Relies on `chrono::Utc::now`, `DateTime::timestamp` and
/// `DateTime::timestamp_subsec_nanos` for the current wall-clock time.
/// Nothing can be promised of the value itself; the documented bound on the
/// nanosecond part (below two seconds, to leave room for leap seconds) is
/// all that is stated.
#[verifier::external_body]
pub(crate) fn now_timestamp() -> (t: Timestamp)
    ensures
        t.nanos < 2_000_000_000,
{
    let now = chrono::Utc::now();
    Timestamp { seconds: now.timestamp(), nanos: now.timestamp_subsec_nanos() }
}

} // verus!
