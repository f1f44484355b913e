use vstd::prelude::*;

verus! {

/// Seconds since the Unix epoch of 0000-01-01T00:00:00Z.
pub const MIN_SECS: i64 = -62167219200;

/// Seconds since the Unix epoch of 9999-12-31T23:59:59Z.
pub const MAX_SECS: i64 = 253402300799;

/// A commit time: an instant in UTC, as whole seconds since the Unix epoch and
/// the nanoseconds within that second.
#[derive(Clone, Copy, Debug, PartialEq, Eq, Structural)]
pub struct Timestamp {
    pub secs: i64,
    pub nanos: u32,
}

/// What `chrono::DateTime::parse_from_rfc3339` makes of a text: the instant it
/// denotes, or nothing where the text is not an RFC 3339 date-time.
pub uninterp spec fn rfc3339_instant(s: Seq<char>) -> Option<(i64, u32)>;

/// The text that `chrono::DateTime::<Utc>::to_rfc3339` writes for an instant.
pub uninterp spec fn rfc3339_text(secs: i64, nanos: u32) -> Seq<char>;

#[verifier::external_type_specification]
#[verifier::external_body]
pub struct ExParseError(chrono::ParseError);

impl Timestamp {
    /// The instants that have an RFC 3339 form with a four-digit year and no
    /// leap second: those the record of processed tags can hold.
    pub open spec fn wf(self) -> bool {
        MIN_SECS <= self.secs <= MAX_SECS && self.nanos < 1_000_000_000
    }

    /// The text of this instant in the persisted record.
    pub open spec fn text(self) -> Seq<char> {
        rfc3339_text(self.secs, self.nanos)
    }

    /// Parses an RFC 3339 date-time, with any offset, into the instant it denotes.
    /// Gives `None` where the text is not one, or denotes an instant outside the
    /// representable range.
    pub fn parse(s: &str) -> (r: Option<Timestamp>)
        ensures
            r == parsed_instant(s@),
    {
        match parse_rfc3339(s) {
            Ok((secs, nanos)) => Timestamp::in_range(secs, nanos),
            Err(_) => None,
        }
    }

    /// The instant of these seconds and nanoseconds, where it is representable.
    pub fn in_range(secs: i64, nanos: u32) -> (r: Option<Timestamp>)
        ensures
            r == in_range_instant(secs, nanos),
    {
        if MIN_SECS <= secs && secs <= MAX_SECS && nanos < 1_000_000_000 {
            Some(Timestamp { secs, nanos })
        } else {
            None
        }
    }

    /// The RFC 3339 text of this instant, which parses back to it.
    pub fn to_text(&self) -> (r: String)
        requires
            self.wf(),
        ensures
            r@ == self.text(),
            parsed_instant(r@) == Some(*self),
    {
        format_rfc3339(self.secs, self.nanos)
    }
}

/// The instant a text denotes, where it is an RFC 3339 date-time within the
/// representable range.
pub open spec fn parsed_instant(s: Seq<char>) -> Option<Timestamp> {
    match rfc3339_instant(s) {
        Some((secs, nanos)) => in_range_instant(secs, nanos),
        None => None,
    }
}

/// The instant of these seconds and nanoseconds, where it is representable.
pub open spec fn in_range_instant(secs: i64, nanos: u32) -> Option<Timestamp> {
    let t = Timestamp { secs, nanos };
    if t.wf() {
        Some(t)
    } else {
        None
    }
}

/// Relies on `chrono::DateTime::parse_from_rfc3339`, read as an instant through
/// `timestamp` and `timestamp_subsec_nanos`: it fails exactly where it yields no
/// date-time.
#[verifier::external_body]
fn parse_rfc3339(s: &str) -> (r: Result<(i64, u32), chrono::ParseError>)
    ensures
        r is Ok <==> rfc3339_instant(s@) is Some,
        r is Ok ==> rfc3339_instant(s@) == Some(r->Ok_0),
{
    match chrono::DateTime::parse_from_rfc3339(s) {
        Ok(d) => Ok((d.timestamp(), d.timestamp_subsec_nanos())),
        Err(e) => Err(e),
    }
}

/// Relies on `chrono::DateTime::<Utc>::from_timestamp` and `to_rfc3339`: an
/// instant with a four-digit year and no leap second is written as
/// `YYYY-MM-DDTHH:MM:SS[.fraction]+00:00`, which `parse_from_rfc3339` reads
/// back as the same instant.
#[verifier::external_body]
fn format_rfc3339(secs: i64, nanos: u32) -> (r: String)
    requires
        MIN_SECS <= secs <= MAX_SECS,
        nanos < 1_000_000_000,
    ensures
        r@ == rfc3339_text(secs, nanos),
        rfc3339_instant(r@) == Some((secs, nanos)),
{
    match chrono::DateTime::<chrono::Utc>::from_timestamp(secs, nanos) {
        Some(d) => d.to_rfc3339(),
        None => String::new(),
    }
}

} // verus!
