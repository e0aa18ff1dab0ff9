//! The age formatter: how long ago a pod was created, as a coarse human
//! duration.

use crate::error::ReportError;
use crate::pattern::{compile, pattern_compiles, regex_source, replace_all, rewritten};
use vstd::prelude::*;

verus! {

/// A point in time: whole seconds since the Unix epoch, and the
/// nanoseconds since the last second boundary.
#[derive(Debug, Clone, Copy, PartialEq, Eq, Structural)]
pub struct Instant {
    pub secs: i64,
    pub nanos: u32,
}

/// A length of time that is not negative: whole seconds, and nanoseconds
/// below one second.
#[derive(Debug, Clone, Copy, PartialEq, Eq, Structural)]
pub struct Span {
    pub secs: u64,
    pub nanos: u32,
}

impl Span {
    /// Whether the nanoseconds stay below one second.
    pub open spec fn valid(self) -> bool {
        self.nanos < 1_000_000_000
    }
}

/// The nanoseconds in a second.
pub open spec fn nanos_per_sec() -> int {
    1_000_000_000
}

/// The nanoseconds from the Unix epoch to an instant.
pub open spec fn epoch_nanos(t: Instant) -> int {
    t.secs * nanos_per_sec() + t.nanos
}

/// The time from one instant to a later one. There is none where the
/// second instant is the earlier one, nor where the whole seconds between
/// the two exceed the range of `u64`.
pub open spec fn elapsed(from: Instant, to: Instant) -> Option<Span> {
    let nanos = epoch_nanos(to) - epoch_nanos(from);
    if 0 <= nanos && nanos / nanos_per_sec() <= u64::MAX {
        Some(Span { secs: (nanos / nanos_per_sec()) as u64, nanos: (nanos % nanos_per_sec()) as u32 })
    } else {
        None
    }
}

/// The time from `from` to `to`.
pub fn elapsed_between(from: Instant, to: Instant) -> (r: Option<Span>)
    ensures
        r == elapsed(from, to),
        r matches Some(span) ==> span.valid(),
{
    let whole: i128 = (to.secs as i128 - from.secs as i128) * 1_000_000_000;
    let nanos: i128 = whole + (to.nanos as i128 - from.nanos as i128);
    assert(nanos == epoch_nanos(to) - epoch_nanos(from));
    if nanos < 0 {
        return None;
    }
    let length: u128 = nanos as u128;
    let secs: u128 = length / 1_000_000_000;
    let rest: u128 = length % 1_000_000_000;
    if secs > u64::MAX as u128 {
        return None;
    }
    Some(Span { secs: secs as u64, nanos: rest as u32 })
}

/// The instant that a timestamp in the relaxed RFC 3339 form denotes, as
/// seconds since the Unix epoch and nanoseconds within the second, where
/// the text is such a timestamp.
pub uninterp spec fn timestamp_read(text: Seq<char>) -> Option<(i64, u32)>;

/// A length of time, humanized: its units from years down to
/// nanoseconds, each with its count.
pub uninterp spec fn humanized(secs: u64, nanos: u32) -> Seq<char>;

/// Reads a timestamp.
///
/// Trusted: the `FromStr` of `chrono::DateTime<Utc>`, with `timestamp`
/// and `timestamp_subsec_nanos` of what it returns. Whether it succeeds
/// and what it returns depend on the text alone.
#[verifier::external_body]
fn read_timestamp(text: &str) -> (r: Option<(i64, u32)>)
    ensures
        r == timestamp_read(text@),
{
    text.parse::<chrono::DateTime<chrono::Utc>>().ok().map(
        |t| (t.timestamp(), t.timestamp_subsec_nanos()),
    )
}

/// Humanizes a length of time.
///
/// Trusted: `humantime::format_duration` on the `Duration` of these
/// seconds and nanoseconds, rendered by its `Display`. The text depends
/// on the two numbers alone; its composition is the crate's to choose.
#[verifier::external_body]
fn humanize(secs: u64, nanos: u32) -> (r: String)
    requires
        nanos < 1_000_000_000,
    ensures
        r@ == humanized(secs, nanos),
{
    humantime::format_duration(std::time::Duration::new(secs, nanos)).to_string()
}

/// The pattern of what is struck from a humanized duration: a space, a
/// number, and the unit of milliseconds or microseconds.
pub open spec fn fine_units() -> Seq<char> {
    seq![' ', '\\', 'd', '+', '[', 'm', 'u', ']', 's']
}

/// A humanized duration without its milliseconds and microseconds, where
/// they follow a coarser unit.
pub open spec fn coarse(rendered: Seq<char>) -> Seq<char> {
    rewritten(fine_units(), rendered, Seq::empty())
}

/// The age of what was created at the instant that `creation` denotes,
/// seen at `now`. A creation time that is no timestamp, or that lies
/// after `now`, is malformed input.
pub open spec fn age_text(creation: Seq<char>, now: Instant) -> Result<Seq<char>, ReportError> {
    match timestamp_read(creation) {
        Some((secs, nanos)) => match elapsed(Instant { secs, nanos }, now) {
            Some(span) => Ok(coarse(humanized(span.secs, span.nanos))),
            None => Err(ReportError::MalformedInput),
        },
        None => Err(ReportError::MalformedInput),
    }
}

/// Whether an age, as the formatter returned it, is the one that the
/// model gives.
pub open spec fn age_is(r: Result<String, ReportError>, expected: Result<Seq<char>, ReportError>) -> bool {
    match expected {
        Ok(text) => r matches Ok(s) && s@ == text,
        Err(e) => r == Err::<String, ReportError>(e),
    }
}

/// The age formatter, with its pattern compiled.
pub struct AgeFormat {
    strike: regex::Regex,
}

impl AgeFormat {
    #[verifier::type_invariant]
    spec fn strikes_fine_units(self) -> bool {
        regex_source(self.strike) == fine_units()
    }

    /// Makes the formatter. It fails, with `InvalidRule`, only where the
    /// pattern of the fine units does not compile.
    pub fn new() -> (r: Result<AgeFormat, ReportError>)
        ensures
            r is Ok <==> pattern_compiles(fine_units()),
            r is Err ==> r == Err::<AgeFormat, ReportError>(ReportError::InvalidRule),
    {
        proof {
            reveal_strlit(" \\d+[mu]s");
            assert(" \\d+[mu]s"@ =~= fine_units());
        }
        match compile(" \\d+[mu]s") {
            Some(strike) => Ok(AgeFormat { strike }),
            None => Err(ReportError::InvalidRule),
        }
    }

    /// Strikes the milliseconds and microseconds from a humanized
    /// duration.
    pub fn coarsen(&self, rendered: &str) -> (r: String)
        ensures
            r@ == coarse(rendered@),
    {
        proof {
            use_type_invariant(self);
            reveal_strlit("");
            assert(""@ =~= Seq::<char>::empty());
        }
        replace_all(&self.strike, rendered, "")
    }

    /// The age of what was created `span` ago.
    pub fn render_span(&self, span: Span) -> (r: String)
        requires
            span.valid(),
        ensures
            r@ == coarse(humanized(span.secs, span.nanos)),
    {
        let rendered = humanize(span.secs, span.nanos);
        self.coarsen(rendered.as_str())
    }

    /// The age of what was created at the instant that `creation`
    /// denotes, seen at `now`.
    pub fn render(&self, creation: &str, now: Instant) -> (r: Result<String, ReportError>)
        ensures
            age_is(r, age_text(creation@, now)),
    {
        let created = match read_timestamp(creation) {
            Some((secs, nanos)) => Instant { secs, nanos },
            None => {
                return Err(ReportError::MalformedInput);
            },
        };
        match elapsed_between(created, now) {
            Some(span) => Ok(self.render_span(span)),
            None => Err(ReportError::MalformedInput),
        }
    }
}

} // verus!
