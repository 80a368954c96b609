//! Instants and spans of time as plain integers, and the few calls into
//! chrono that the library needs: the clock, and the RFC 3339 text form.
use vstd::prelude::*;

verus! {

/// First second (UTC, since the Unix epoch) that chrono can represent, its
/// `DateTime::<Utc>::MIN_UTC` (year -262143).
pub const MIN_SECS: i64 = -8_334_601_228_800;

/// Last second (UTC, since the Unix epoch) that chrono can represent, its
/// `DateTime::<Utc>::MAX_UTC` (December 31st of year 262142, 23:59:59).
pub const MAX_SECS: i64 = 8_210_266_876_799;

pub const NANOS_PER_SEC: u32 = 1_000_000_000;

/// An instant in UTC: whole seconds since the Unix epoch and the nanoseconds
/// past that second.
#[derive(Clone, Copy, Debug, PartialEq, Eq, Structural)]
pub struct Timestamp {
    pub secs: i64,
    pub nanos: u32,
}

/// A signed span of time in nanoseconds.
#[derive(Clone, Copy, Debug, PartialEq, Eq, Structural)]
pub struct Duration {
    pub nanos: i128,
}

impl Timestamp {
    /// Within chrono's range, and not inside a leap second.
    pub open spec fn wf(self) -> bool {
        &&& MIN_SECS <= self.secs <= MAX_SECS
        &&& self.nanos < NANOS_PER_SEC
    }

    /// The instant as a count of nanoseconds since the epoch.
    pub open spec fn ns(self) -> int {
        self.secs * 1_000_000_000 + self.nanos
    }

    /// The instant as the pair that the text form names.
    pub open spec fn parts(self) -> (i64, u32) {
        (self.secs, self.nanos)
    }

    /// The span from `earlier` to `self` (negative if `earlier` is later).
    pub fn since(self, earlier: Timestamp) -> (r: Duration)
        requires
            self.wf(),
            earlier.wf(),
        ensures
            r.nanos == self.ns() - earlier.ns(),
    {
        let s = (self.secs as i128 - earlier.secs as i128) * 1_000_000_000i128;
        Duration { nanos: s + (self.nanos as i128 - earlier.nanos as i128) }
    }

    /// Whether `self` is strictly earlier than `other`.
    pub fn is_before(self, other: Timestamp) -> (r: bool)
        requires
            self.wf(),
            other.wf(),
        ensures
            r == (self.ns() < other.ns()),
    {
        self.secs < other.secs || (self.secs == other.secs && self.nanos < other.nanos)
    }
}

/// Integer division that rounds toward zero, as Rust's `/` does.
pub open spec fn div_trunc(a: int, b: int) -> int
    recommends
        b > 0,
{
    if a >= 0 {
        a / b
    } else {
        -((-a) / b)
    }
}

impl Duration {
    pub fn from_minutes(m: i64) -> (r: Duration)
        ensures
            r.nanos == m * 60_000_000_000,
    {
        Duration { nanos: m as i128 * 60_000_000_000i128 }
    }

    pub fn from_seconds(s: i64) -> (r: Duration)
        ensures
            r.nanos == s * 1_000_000_000,
    {
        Duration { nanos: s as i128 * 1_000_000_000i128 }
    }

    /// Whole minutes, and the whole seconds past them, each rounded toward
    /// zero (so a negative span gives non-positive parts).
    pub fn minutes_seconds(self) -> (r: (i128, i128))
        requires
            self.nanos > i128::MIN,
        ensures
            r.0 == div_trunc(self.nanos as int, 60_000_000_000),
            r.1 == div_trunc(self.nanos as int, 1_000_000_000) - 60 * r.0,
    {
        let n = self.nanos;
        if n >= 0 {
            let m = n / 60_000_000_000i128;
            let s = n / 1_000_000_000i128;
            assert(s - 60 * m < 60 && s - 60 * m >= 0) by (nonlinear_arith)
                requires
                    n >= 0,
                    m == n / 60_000_000_000,
                    s == n / 1_000_000_000,
            ;
            (m, s - 60 * m)
        } else {
            let a = -n;
            let m = a / 60_000_000_000i128;
            let s = a / 1_000_000_000i128;
            assert(s - 60 * m < 60 && s - 60 * m >= 0) by (nonlinear_arith)
                requires
                    a >= 0,
                    m == a / 60_000_000_000,
                    s == a / 1_000_000_000,
            ;
            (-m, -s + 60 * m)
        }
    }
}

/// The text that chrono writes for an instant (RFC 3339, UTC as `Z`, with
/// as many fractional digits as the nanoseconds need).
pub uninterp spec fn time_text(t: (i64, u32)) -> Seq<char>;

/// The instant that chrono reads from a text, as seconds and nanoseconds
/// in UTC, or `None` where chrono refuses the text.
pub uninterp spec fn time_parse(s: Seq<char>) -> Option<(i64, u32)>;

/// Relies on chrono's `Utc::now`: the system clock as a `DateTime<Utc>`,
/// which chrono builds from a duration since the epoch whose sub-second
/// part is below one second, and which lies within chrono's range.
#[verifier::external_body]
pub(crate) fn now() -> (r: Timestamp)
    ensures
        r.wf(),
{
    let d = chrono::Utc::now();
    Timestamp { secs: d.timestamp(), nanos: d.timestamp_subsec_nanos() }
}

/// Relies on chrono's `FromStr for DateTime<FixedOffset>`, the parser that
/// chrono's serde support uses for `DateTime<Utc>`, then `timestamp` and
/// `timestamp_subsec_nanos` (both in UTC). A `DateTime` lies within
/// chrono's range, and its nanoseconds stay below two seconds' worth (a
/// leap second reaches past one).
#[verifier::external_body]
pub(crate) fn parse_time(s: &str) -> (r: Option<(i64, u32)>)
    ensures
        r == time_parse(s@),
        r matches Some(p) ==> MIN_SECS <= p.0 <= MAX_SECS && p.1 < 2 * NANOS_PER_SEC,
{
    match s.parse::<chrono::DateTime<chrono::FixedOffset>>() {
        Ok(d) => Some((d.timestamp(), d.timestamp_subsec_nanos())),
        Err(_) => None,
    }
}

/// Relies on chrono's `DateTime::from_timestamp`, which succeeds on every
/// instant within range with nanoseconds below one second, and on
/// `to_rfc3339_opts(SecondsFormat::AutoSi, true)`, the form chrono's serde
/// support writes and documents as read back by the parser above.
#[verifier::external_body]
pub(crate) fn format_time(t: Timestamp) -> (r: String)
    requires
        t.wf(),
    ensures
        r@ == time_text(t.parts()),
        time_parse(r@) == Some(t.parts()),
{
    let d = chrono::DateTime::from_timestamp(t.secs, t.nanos).unwrap();
    d.to_rfc3339_opts(chrono::SecondsFormat::AutoSi, true)
}

} // verus!
