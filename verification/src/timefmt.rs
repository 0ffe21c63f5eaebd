//! Timestamps and their RFC3339 text form.
//!
//! Rows store naive UTC timestamps; responses render them as RFC3339
//! strings truncated to whole seconds.  The library keeps a timestamp as
//! its count of UTC seconds and leans on chrono for the two conversions
//! between text and seconds.

use vstd::prelude::*;

verus! {

/// A naive UTC instant, kept as whole seconds since the Unix epoch.
#[derive(Clone, Copy, Debug, PartialEq, Eq, Structural)]
pub struct Timestamp {
    pub secs: i64,
}

/// The seconds denoted by an RFC3339 string, when it is one.
pub uninterp spec fn rfc3339_secs_of(s: Seq<char>) -> Option<i64>;

/// The RFC3339 UTC rendering of a timestamp, truncated to whole seconds;
/// absent only outside chrono's representable range.
pub uninterp spec fn rfc3339_render_of(secs: i64) -> Option<Seq<char>>;

/// Relies on chrono's `DateTime::parse_from_rfc3339` and
/// `DateTime::timestamp`: whether a string parses, and the seconds it
/// denotes, depend on its characters alone.  Sub-second precision is
/// dropped, as every rendering of a stored timestamp is anyway.
#[verifier::external_body]
pub fn parse_rfc3339(s: &str) -> (r: Option<Timestamp>)
    ensures
        r is Some <==> rfc3339_secs_of(s@) is Some,
        r matches Some(t) ==> rfc3339_secs_of(s@) == Some(t.secs),
{
    chrono::DateTime::parse_from_rfc3339(s).ok().map(
        |dt| Timestamp { secs: dt.timestamp() },
    )
}

/// Relies on chrono's `DateTime::from_timestamp` and
/// `DateTime::to_rfc3339_opts`: the rendering is a function of the seconds
/// alone, and `from_timestamp` returns `None` only outside chrono's
/// representable range.
#[verifier::external_body]
pub fn format_rfc3339_secs(secs: i64) -> (r: Option<String>)
    ensures
        r is Some <==> rfc3339_render_of(secs) is Some,
        r matches Some(s) ==> rfc3339_render_of(secs) == Some(s@),
{
    chrono::DateTime::<chrono::Utc>::from_timestamp(secs, 0).map(
        |dt| dt.to_rfc3339_opts(chrono::SecondsFormat::Secs, true),
    )
}

/// What rendering an optional timestamp yields.
pub open spec fn render_opt_spec(t: Option<Timestamp>) -> Option<Seq<char>> {
    match t {
        Some(ts) => rfc3339_render_of(ts.secs),
        None => None,
    }
}

/// Whether an optional rendered string matches an optional timestamp.
pub open spec fn render_matches(t: Option<Timestamp>, s: Option<Seq<char>>) -> bool {
    &&& s is Some <==> render_opt_spec(t) is Some
    &&& (s matches Some(v) ==> render_opt_spec(t) == Some(v))
}

/// Render an optional stored timestamp for a response, absent values and
/// unrepresentable instants both staying absent.
pub fn opt_naive_datetime_to_utc_opt_string(naive: Option<Timestamp>) -> (r: Option<String>)
    ensures
        r is Some <==> render_opt_spec(naive) is Some,
        r matches Some(s) ==> render_opt_spec(naive) == Some(s@),
{
    match naive {
        Some(ts) => format_rfc3339_secs(ts.secs),
        None => None,
    }
}

/// Parse an optional RFC3339 field value into a timestamp, absence and
/// parse failure both collapsing to "no value".
pub fn opt_immut_str_to_opt_naive_datetime(value: Option<&str>) -> (r: Option<Timestamp>)
    ensures
        match value {
            Some(s) => {
                &&& r is Some <==> rfc3339_secs_of(s@) is Some
                &&& (r matches Some(t) ==> rfc3339_secs_of(s@) == Some(t.secs))
            },
            None => r is None,
        },
{
    match value {
        Some(s) => parse_rfc3339(s),
        None => None,
    }
}

} // verus!
