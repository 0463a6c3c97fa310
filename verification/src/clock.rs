//! Instants in UTC, as chrono reads them from the system clock and writes
//! them in RFC 3339.

use chrono::{DateTime, Utc};
use vstd::prelude::*;

verus! {

/// What chrono writes for the instant `secs` seconds and `nanos` nanoseconds
/// after the Unix epoch (`DateTime::from_timestamp` then `to_rfc3339`), or
/// `None` where chrono has no such instant.
pub uninterp spec fn rfc3339_text(secs: i64, nanos: u32) -> Option<Seq<char>>;

/// The instant that chrono reads from an RFC 3339 text, in UTC, as seconds and
/// nanoseconds after the Unix epoch; `None` when the text does not parse.
pub uninterp spec fn rfc3339_instant(text: Seq<char>) -> Option<(i64, u32)>;

/// `chrono::Utc::now`. Claimed, from chrono's source: the instant lies at or
/// after the epoch, its nanoseconds come from `Duration::subsec_nanos` (below
/// one second), and chrono built it with `DateTime::from_timestamp` on these
/// very values, so it has an RFC 3339 text. Which instant comes back is left
/// open (it is the time).
#[verifier::external_body]
fn system_now() -> (r: (i64, u32))
    ensures
        r.0 >= 0,
        r.1 < 1_000_000_000,
        rfc3339_text(r.0, r.1) is Some,
{
    let now = Utc::now();
    (now.timestamp(), now.timestamp_subsec_nanos())
}

/// `chrono::DateTime::from_timestamp` followed by `DateTime::to_rfc3339`.
/// Claimed: the result is `rfc3339_text` of the two numbers.
#[verifier::external_body]
fn format_rfc3339(secs: i64, nanos: u32) -> (r: Option<String>)
    ensures
        match r {
            Some(t) => rfc3339_text(secs, nanos) == Some(t@),
            None => rfc3339_text(secs, nanos) is None,
        },
{
    match DateTime::from_timestamp(secs, nanos) {
        Some(d) => Some(d.to_rfc3339()),
        None => None,
    }
}

/// `chrono::DateTime::parse_from_rfc3339`, converted to UTC and read back as
/// seconds and nanoseconds. Claimed: the result is `rfc3339_instant` of the text.
#[verifier::external_body]
pub(crate) fn parse_rfc3339(text: &str) -> (r: Option<(i64, u32)>)
    ensures
        r == rfc3339_instant(text@),
{
    match DateTime::parse_from_rfc3339(text) {
        Ok(d) => {
            let u = d.with_timezone(&Utc);
            Some((u.timestamp(), u.timestamp_subsec_nanos()))
        },
        Err(_) => None,
    }
}

/// An instant in UTC that chrono can write in RFC 3339.
#[derive(Debug, Clone, Copy)]
pub struct UtcTime {
    secs: i64,
    nanos: u32,
}

impl UtcTime {
    /// Seconds after the Unix epoch.
    pub closed spec fn spec_secs(&self) -> i64 {
        self.secs
    }

    /// Nanoseconds after `spec_secs`.
    pub closed spec fn spec_nanos(&self) -> u32 {
        self.nanos
    }

    #[verifier::type_invariant]
    closed spec fn valid(&self) -> bool {
        &&& self.nanos < 1_000_000_000
        &&& rfc3339_text(self.secs, self.nanos) is Some
    }

    /// The current time.
    pub fn now() -> (t: Self)
        ensures
            t.spec_secs() >= 0,
    {
        let (secs, nanos) = system_now();
        UtcTime { secs, nanos }
    }

    /// The instant `secs` seconds and `nanos` nanoseconds after the epoch, when
    /// the nanoseconds are below one second and chrono can write the instant.
    pub fn from_parts(secs: i64, nanos: u32) -> (t: Option<Self>)
        ensures
            match t {
                Some(u) => u.spec_secs() == secs && u.spec_nanos() == nanos,
                None => nanos >= 1_000_000_000 || rfc3339_text(secs, nanos) is None,
            },
    {
        if nanos >= 1_000_000_000 {
            return None;
        }
        match format_rfc3339(secs, nanos) {
            Some(_) => Some(UtcTime { secs, nanos }),
            None => None,
        }
    }

    /// Seconds after the Unix epoch.
    pub fn secs(&self) -> (r: i64)
        ensures
            r == self.spec_secs(),
    {
        self.secs
    }

    /// Nanoseconds after `secs`.
    pub fn nanos(&self) -> (r: u32)
        ensures
            r == self.spec_nanos(),
            r < 1_000_000_000,
    {
        proof {
            use_type_invariant(self);
        }
        self.nanos
    }

    /// This instant in RFC 3339, as chrono writes it.
    pub fn to_rfc3339(&self) -> (r: String)
        ensures
            rfc3339_text(self.spec_secs(), self.spec_nanos()) == Some(r@),
    {
        proof {
            use_type_invariant(self);
        }
        match format_rfc3339(self.secs, self.nanos) {
            Some(t) => t,
            None => {
                assert(false);
                String::new()
            },
        }
    }
}

/// Nanoseconds from `start` to `end` (negative when `end` comes first).
pub open spec fn span_nanos(start: UtcTime, end: UtcTime) -> int {
    (end.spec_secs() - start.spec_secs()) * 1_000_000_000 + end.spec_nanos() - start.spec_nanos()
}

/// Whole seconds from `start` to `end`, and 0 when `end` does not come after
/// `start`.
pub open spec fn elapsed_whole_secs(start: UtcTime, end: UtcTime) -> int {
    if span_nanos(start, end) <= 0 {
        0
    } else {
        span_nanos(start, end) / 1_000_000_000
    }
}

/// Whole seconds from `start` to `end`, never negative.
pub fn elapsed_secs(start: &UtcTime, end: &UtcTime) -> (r: u64)
    ensures
        r == elapsed_whole_secs(*start, *end),
{
    proof {
        use_type_invariant(start);
        use_type_invariant(end);
    }
    let d: i128 = (end.secs as i128 - start.secs as i128) * 1_000_000_000 + (end.nanos as i128
        - start.nanos as i128);
    if d <= 0 {
        0
    } else {
        let q = d / 1_000_000_000;
        assert(q <= u64::MAX) by (nonlinear_arith)
            requires
                q == d / 1_000_000_000,
                d < (i64::MAX - i64::MIN + 1) * 1_000_000_000,
                d > 0,
        ;
        q as u64
    }
}

} // verus!
