//! Instants and their RFC 3339 notation.
use vstd::prelude::*;

use crate::text::{append_chars, dec_int, dec_int_chars, from_chars};

verus! {

/// A point in time: whole seconds since the Unix epoch and the nanoseconds past them.
#[derive(Clone, Copy, Debug, PartialEq, Eq, Structural)]
pub struct Moment {
    pub secs: i64,
    pub nanos: u32,
}

impl Moment {
    /// Earlier than `other`.
    pub open spec fn before(self, other: Moment) -> bool {
        self.secs < other.secs || (self.secs == other.secs && self.nanos < other.nanos)
    }

    /// Whether this moment is earlier than `other`.
    pub fn is_before(&self, other: &Moment) -> (b: bool)
        ensures
            b == self.before(*other),
    {
        self.secs < other.secs || (self.secs == other.secs && self.nanos < other.nanos)
    }
}

/// The moment that `chrono::DateTime::parse_from_rfc3339` reads from a text.
pub uninterp spec fn rfc3339_moment(text: Seq<char>) -> Option<Moment>;

/// The text that chrono writes for a count of seconds since the Unix epoch, in UTC with
/// whole seconds; nothing outside the years that chrono can hold.
pub uninterp spec fn rfc3339_text(unix: i64) -> Option<Seq<char>>;

/// Reads an RFC 3339 text with `chrono::DateTime::parse_from_rfc3339`.
///
/// Trusted: the outcome is a function of the text alone. The offset in the text is
/// applied: the seconds are those since the Unix epoch, by `timestamp`, and the
/// nanoseconds are `timestamp_subsec_nanos`.
#[verifier::external_body]
pub(crate) fn parse_moment(text: &str) -> (r: Option<Moment>)
    ensures
        r == rfc3339_moment(text@),
{
    match chrono::DateTime::parse_from_rfc3339(text) {
        Ok(t) => Some(Moment { secs: t.timestamp(), nanos: t.timestamp_subsec_nanos() }),
        Err(_) => None,
    }
}

/// Writes seconds since the Unix epoch with `chrono::DateTime::from_timestamp` and
/// `to_rfc3339_opts`, seconds form, with `Z`.
///
/// Trusted: the outcome is a function of the seconds alone; from the epoch to the end
/// of the year 9999 there is a text, and reading it gives the same second back.
#[verifier::external_body]
fn write_moment(unix: i64) -> (r: Option<String>)
    ensures
        crate::text::opt_str(r) == rfc3339_text(unix),
        0 <= unix <= 253402300799 ==> r is Some && rfc3339_moment(r->0@) == Some(
            (Moment { secs: unix, nanos: 0 }),
        ),
{
    chrono::DateTime::from_timestamp(unix, 0).map(
        |t| t.to_rfc3339_opts(chrono::SecondsFormat::Secs, true),
    )
}

/// How a count of seconds is shown: its RFC 3339 text, or the bare count after `@` where
/// there is none.
pub open spec fn iso_or_count(text: Option<Seq<char>>, unix: i64) -> Seq<char> {
    match text {
        Some(t) => t,
        None => seq!['@'] + dec_int(unix as int),
    }
}

/// Shows `unix`, given its RFC 3339 text if there is one.
pub fn show_moment(text: Option<String>, unix: i64) -> (r: String)
    ensures
        r@ == iso_or_count(crate::text::opt_str(text), unix),
{
    match text {
        Some(t) => t,
        None => {
            let mut out: Vec<char> = Vec::new();
            out.push('@');
            append_chars(&mut out, &dec_int_chars(unix));
            assert(out@ =~= seq!['@'] + dec_int(unix as int));
            from_chars(&out)
        },
    }
}

/// Seconds since the Unix epoch as an RFC 3339 text in UTC. Up to the end of the year
/// 9999 the text reads back as the same second.
pub fn unix_to_iso(unix: i64) -> (r: String)
    ensures
        r@ == iso_or_count(rfc3339_text(unix), unix),
        0 <= unix <= 253402300799 ==> rfc3339_moment(r@) == Some(
            (Moment { secs: unix, nanos: 0 }),
        ),
{
    show_moment(write_moment(unix), unix)
}

/// RFC 3339 (`2026-06-06T01:13:22.173Z`) to whole seconds since the Unix epoch.
pub fn parse_rfc3339(s: &str) -> (r: Option<i64>)
    ensures
        r == seconds_of(rfc3339_moment(s@)),
{
    match parse_moment(s) {
        Some(m) => Some(m.secs),
        None => None,
    }
}

/// The whole seconds of a moment.
pub open spec fn seconds_of(m: Option<Moment>) -> Option<i64> {
    match m {
        Some(m) => Some(m.secs),
        None => None,
    }
}

/// One moment is before another where its second is, and within one second where its
/// nanosecond is.
pub proof fn law_moments_are_ordered(a: Moment, b: Moment)
    ensures
        a.secs < b.secs ==> a.before(b) && !b.before(a),
        a.secs == b.secs ==> (a.before(b) <==> a.nanos < b.nanos),
{
}

/// A second is shown by its text where it has one, and by its number behind `@` where it has
/// none; and a moment is read by its second.
pub proof fn law_seconds_are_shown(unix: i64, text: Seq<char>, m: Moment)
    ensures
        iso_or_count(Some(text), unix) == text,
        iso_or_count(None, unix) == seq!['@'] + dec_int(unix as int),
        seconds_of(Some(m)) == Some(m.secs),
        seconds_of(None) is None,
{
}

} // verus!
