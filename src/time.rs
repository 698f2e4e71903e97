//! Instants carried on the wire as RFC 3339 text. The calendar work is done by
//! chrono; the library holds an instant as plain seconds and nanoseconds.
use chrono::{DateTime, Utc};
use vstd::prelude::*;

verus! {

/// An instant: whole seconds since the Unix epoch and the nanoseconds past
/// that second (1_000_000_000 and above stand for a leap second).
#[derive(Clone, Copy, Debug, PartialEq, Eq, Structural)]
pub struct Timestamp {
    pub secs: i64,
    pub nanos: u32,
}

/// Whether chrono can represent the UTC instant `secs`, `nanos`.
pub uninterp spec fn utc_representable(secs: i64, nanos: u32) -> bool;

/// The RFC 3339 text that chrono writes for the UTC instant `secs`, `nanos`.
pub uninterp spec fn rfc3339_text(secs: i64, nanos: u32) -> Seq<char>;

/// The UTC instant, as seconds and nanoseconds, that chrono reads from the
/// RFC 3339 text `text`; `None` where chrono rejects it.
pub uninterp spec fn rfc3339_instant(text: Seq<char>) -> Option<(i64, u32)>;

impl Timestamp {
    pub open spec fn representable(self) -> bool {
        utc_representable(self.secs, self.nanos)
    }

    /// The RFC 3339 text of this instant.
    pub open spec fn text(self) -> Seq<char> {
        rfc3339_text(self.secs, self.nanos)
    }

    /// Whether this instant's text reads back as this very instant.
    pub open spec fn reads_back(self) -> bool {
        rfc3339_instant(self.text()) == Some((self.secs, self.nanos))
    }

    /// The instant `secs`, `nanos` after the epoch, if it can be represented.
    pub fn from_unix(secs: i64, nanos: u32) -> (r: Option<Timestamp>)
        ensures
            r is Some <==> utc_representable(secs, nanos),
            r matches Some(t) ==> t.secs == secs && t.nanos == nanos && t.representable(),
    {
        if utc_instant_exists(secs, nanos) {
            Some(Timestamp { secs, nanos })
        } else {
            None
        }
    }

    /// The RFC 3339 text of this instant.
    pub fn to_rfc3339(&self) -> (r: String)
        requires
            self.representable(),
        ensures
            r@ == self.text(),
    {
        utc_rfc3339(self.secs, self.nanos)
    }

    /// Reads an instant from RFC 3339 text; `None` where the text is not a
    /// valid RFC 3339 date and time.
    pub fn parse_rfc3339(text: &str) -> (r: Option<Timestamp>)
        ensures
            match r {
                Some(t) => rfc3339_instant(text@) == Some((t.secs, t.nanos)),
                None => rfc3339_instant(text@) is None,
            },
    {
        match utc_from_rfc3339(text) {
            Some((secs, nanos)) => Some(Timestamp { secs, nanos }),
            None => None,
        }
    }
}

/// Relies on chrono's `DateTime::<Utc>::from_timestamp`: `Some` exactly for
/// the instants that chrono can represent.
#[verifier::external_body]
fn utc_instant_exists(secs: i64, nanos: u32) -> (r: bool)
    ensures
        r == utc_representable(secs, nanos),
{
    DateTime::<Utc>::from_timestamp(secs, nanos).is_some()
}

/// Relies on chrono's `DateTime::to_rfc3339` for the UTC instant that
/// `DateTime::<Utc>::from_timestamp` builds (which exists by `requires`).
#[verifier::external_body]
fn utc_rfc3339(secs: i64, nanos: u32) -> (r: String)
    requires
        utc_representable(secs, nanos),
    ensures
        r@ == rfc3339_text(secs, nanos),
{
    DateTime::<Utc>::from_timestamp(secs, nanos).unwrap().to_rfc3339()
}

/// Relies on chrono's `DateTime::parse_from_rfc3339`, with the result taken to
/// UTC and read back as seconds and nanoseconds.
#[verifier::external_body]
fn utc_from_rfc3339(text: &str) -> (r: Option<(i64, u32)>)
    ensures
        r == rfc3339_instant(text@),
{
    match DateTime::parse_from_rfc3339(text) {
        Ok(t) => {
            let t = t.with_timezone(&Utc);
            Some((t.timestamp(), t.timestamp_subsec_nanos()))
        },
        Err(_) => None,
    }
}

} // verus!
