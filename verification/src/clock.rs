//! Reading the clock and converting RFC 3339 timestamps, through the `time`
//! crate.
use vstd::prelude::*;

verus! {

/// The instant an RFC 3339 text denotes, in nanoseconds since the Unix
/// epoch, or `None` when the text is not RFC 3339.
pub uninterp spec fn rfc3339_nanos(s: Seq<char>) -> Option<int>;

/// The RFC 3339 text of an instant given in nanoseconds since the Unix
/// epoch, in UTC, or `None` when the instant is out of the library's range.
pub uninterp spec fn rfc3339_text(nanos: int) -> Option<Seq<char>>;

/// What `unix_timestamp_nanos` can return: an `i64` count of seconds times
/// 10^9 plus a nanosecond below 10^9.
pub open spec fn nanos_in_range(n: int) -> bool {
    i64::MIN * 1_000_000_000 <= n < (i64::MAX + 1) * 1_000_000_000
}

/// `time::OffsetDateTime::parse(s, &Rfc3339)`, as nanoseconds since the
/// epoch (`unix_timestamp_nanos`, which the source computes as the `i64`
/// seconds times 10^9 plus the nanosecond). The result is named: it depends
/// on the text alone.
#[verifier::external_body]
pub fn parse_rfc3339(s: &str) -> (r: Option<i128>)
    ensures
        match r {
            Some(n) => rfc3339_nanos(s@) == Some(n as int) && nanos_in_range(n as int),
            None => rfc3339_nanos(s@) is None,
        },
{
    time::OffsetDateTime::parse(s, &time::format_description::well_known::Rfc3339).ok().map(
        |t| t.unix_timestamp_nanos(),
    )
}

/// `time::OffsetDateTime::from_unix_timestamp_nanos(nanos)` formatted with
/// `Rfc3339`. The result is named: it depends on the instant alone.
#[verifier::external_body]
pub fn format_rfc3339(nanos: i128) -> (r: Option<String>)
    ensures
        match r {
            Some(t) => rfc3339_text(nanos as int) == Some(t@),
            None => rfc3339_text(nanos as int) is None,
        },
{
    time::OffsetDateTime::from_unix_timestamp_nanos(nanos).ok().and_then(
        |t| t.format(&time::format_description::well_known::Rfc3339).ok(),
    )
}

/// `time::OffsetDateTime::now_utc().unix_timestamp_nanos()`. Only the
/// range `unix_timestamp_nanos` computes in is stated: the value is the
/// clock's.
#[verifier::external_body]
pub fn now_nanos() -> (r: i128)
    ensures
        nanos_in_range(r as int),
{
    time::OffsetDateTime::now_utc().unix_timestamp_nanos()
}

/// Nanoseconds in a minute.
pub const MINUTE_NANOS: i128 = 60_000_000_000;

/// Whole minutes from `then` to `now` (rounded toward zero), as
/// `(now - then).whole_minutes()` gives them.
pub open spec fn whole_minutes(now: int, then: int) -> int {
    let d = now - then;
    if d >= 0 {
        d / 60_000_000_000
    } else {
        -((-d) / 60_000_000_000)
    }
}

/// Whole minutes between two instants in nanoseconds, as `Duration::whole_minutes`
/// computes them (rounded toward zero).
pub fn minutes_between(now: i128, then: i128) -> (r: i128)
    requires
        now - then <= i128::MAX,
        now - then > i128::MIN,
    ensures
        r as int == whole_minutes(now as int, then as int),
{
    let d = now - then;
    if d >= 0 {
        d / MINUTE_NANOS
    } else {
        -((-d) / MINUTE_NANOS)
    }
}

} // verus!
