use vstd::prelude::*;

verus! {

/// An absolute UTC instant: whole seconds since the Unix epoch plus the
/// nanosecond offset within that second. Nanosecond values of
/// 1_000_000_000 and above carry a leap second, as the parser below
/// reports them.
#[derive(Clone, Copy, PartialEq, Eq, Structural, Debug)]
pub struct Timestamp {
    pub secs: i64,
    pub nanos: u32,
}

/// A well-formed instant never carries a nanosecond offset of two whole
/// seconds or more.
pub open spec fn ts_wf(t: Timestamp) -> bool {
    t.nanos < 2_000_000_000
}

/// Instant order: by seconds, then by the nanosecond offset.
pub open spec fn ts_le(a: Timestamp, b: Timestamp) -> bool {
    a.secs < b.secs || (a.secs == b.secs && a.nanos <= b.nanos)
}

impl Timestamp {
    pub fn le(&self, other: &Timestamp) -> (r: bool)
        ensures
            r == ts_le(*self, *other),
    {
        self.secs < other.secs || (self.secs == other.secs && self.nanos <= other.nanos)
    }
}

/// What chrono's RFC 3339 parser returns for a string: the instant as
/// `(seconds, nanoseconds)` when the string is a valid RFC 3339 timestamp,
/// `None` otherwise.
pub uninterp spec fn parsed_ts(s: Seq<char>) -> Option<(i64, u32)>;

/// Whether chrono can represent the instant `(secs, nanos)` as a
/// `DateTime<Utc>`.
pub uninterp spec fn ts_representable(secs: i64, nanos: u32) -> bool;

/// What chrono's RFC 3339 formatter produces for a representable instant.
pub uninterp spec fn rfc3339_of(secs: i64, nanos: u32) -> Seq<char>;

/// Relies on chrono: `str::parse::<DateTime<Utc>>` accepts exactly the
/// valid RFC 3339 timestamps; `timestamp` and `timestamp_subsec_nanos`
/// return the parsed instant, with the nanosecond part below 2_000_000_000
/// (1_000_000_000 and above encode a leap second); every parsed instant
/// can be rebuilt with `DateTime::from_timestamp`.
#[verifier::external_body]
pub(crate) fn parse_rfc3339(s: &str) -> (r: Option<Timestamp>)
    ensures
        match r {
            Some(t) => {
                &&& parsed_ts(s@) == Some((t.secs, t.nanos))
                &&& ts_wf(t)
                &&& ts_representable(t.secs, t.nanos)
            },
            None => parsed_ts(s@) is None,
        },
{
    match s.parse::<chrono::DateTime<chrono::Utc>>() {
        Ok(dt) => Some(Timestamp { secs: dt.timestamp(), nanos: dt.timestamp_subsec_nanos() }),
        Err(_) => None,
    }
}

/// Relies on chrono: `DateTime::from_timestamp` succeeds exactly on the
/// representable instants, and `to_rfc3339` renders such an instant as a
/// non-empty RFC 3339 string that contains no space; outside a leap
/// second, parsing that string back yields the same instant.
#[verifier::external_body]
pub(crate) fn format_rfc3339(t: &Timestamp) -> (r: Option<String>)
    ensures
        r is Some <==> ts_representable(t.secs, t.nanos),
        match r {
            Some(s) => {
                &&& s@ == rfc3339_of(t.secs, t.nanos)
                &&& s@.len() > 0
                &&& forall|i: int| 0 <= i < s@.len() ==> s@[i] != ' '
                &&& t.nanos < 1_000_000_000 ==> parsed_ts(s@) == Some((t.secs, t.nanos))
            },
            None => true,
        },
{
    chrono::DateTime::<chrono::Utc>::from_timestamp(t.secs, t.nanos).map(|dt| dt.to_rfc3339())
}

} // verus!
