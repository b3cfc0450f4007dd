//! Points in time.
use vstd::prelude::*;

verus! {

/// A point in time in UTC: whole seconds since 1970-01-01T00:00:00Z, and the nanoseconds since then.
/// A leap second counts as the second before it, with a billion nanoseconds or more.
#[derive(Debug, Clone, Copy, PartialEq, Eq, Structural)]
pub struct Timestamp {
    pub secs: i64,
    pub nanos: u32,
}

/// The first second of the year -262143, where the calendar starts.
pub const MIN_SECS: i64 = -8_334_601_228_800;

/// The last second of the year 262142, where the calendar ends.
pub const MAX_SECS: i64 = 8_210_266_876_799;

/// The longest time, in seconds, that can be counted back.
pub const MAX_SPAN_SECS: u64 = 9_223_372_036_854_775;

/// Whether `secs` and `nanos` are a point in time of the calendar.
pub open spec fn in_calendar(secs: int, nanos: int) -> bool {
    &&& MIN_SECS <= secs <= MAX_SECS
    &&& 0 <= nanos < 2_000_000_000
    &&& nanos >= 1_000_000_000 ==> secs % 60 == 59
}

/// The point in time that lies `span` seconds before this one, where the calendar reaches so far
/// back. A leap second is left behind by any step, and counts as the start of the next minute.
pub open spec fn earlier(secs: int, nanos: int, span: int) -> Option<(int, int)> {
    let (s, n) = if span > 0 && nanos >= 1_000_000_000 {
        (secs + 1 - span, nanos - 1_000_000_000)
    } else {
        (secs - span, nanos)
    };
    if s >= MIN_SECS {
        Some((s, n))
    } else {
        None
    }
}

/// What `chrono::DateTime::<chrono::Utc>::to_rfc3339` writes for a point in time.
pub uninterp spec fn rfc3339_text(secs: int, nanos: int) -> Seq<char>;

/// Calls `chrono::DateTime::<chrono::Utc>::to_rfc3339` on the date and time that
/// `DateTime::from_timestamp` makes of `secs` and `nanos`. Trusted: the text depends on these two
/// numbers alone, and a point in time of the calendar is one that `from_timestamp` accepts.
#[verifier::external_body]
fn rfc3339(secs: i64, nanos: u32) -> (r: String)
    requires
        in_calendar(secs as int, nanos as int),
    ensures
        r@ == rfc3339_text(secs as int, nanos as int),
{
    chrono::DateTime::<chrono::Utc>::from_timestamp(secs, nanos).unwrap().to_rfc3339()
}

/// Calls `chrono::DateTime::<chrono::Utc>::checked_sub_signed` (what `-` calls) with a
/// `chrono::Duration` of `span` seconds. Trusted: it takes `span` seconds off, leaves the
/// nanoseconds as they are unless it steps out of a leap second, and gives nothing exactly where the
/// result would lie before the first second of the calendar.
#[verifier::external_body]
fn checked_sub(secs: i64, nanos: u32, span: u64) -> (r: Option<(i64, u32)>)
    requires
        in_calendar(secs as int, nanos as int),
        span <= MAX_SPAN_SECS,
    ensures
        match r {
            Some(t) => earlier(secs as int, nanos as int, span as int) == Some(
                (t.0 as int, t.1 as int),
            ),
            None => earlier(secs as int, nanos as int, span as int) is None,
        },
{
    let back = chrono::Duration::from_std(std::time::Duration::from_secs(span)).unwrap();
    let now = chrono::DateTime::<chrono::Utc>::from_timestamp(secs, nanos).unwrap();
    now.checked_sub_signed(back).map(|t| (t.timestamp(), t.timestamp_subsec_nanos()))
}

impl Timestamp {
    /// Whether this is a point in time of the calendar.
    pub open spec fn valid(self) -> bool {
        in_calendar(self.secs as int, self.nanos as int)
    }

    /// Whether this point in time comes before `other`.
    pub open spec fn is_before(self, other: Timestamp) -> bool {
        self.secs < other.secs || (self.secs == other.secs && self.nanos < other.nanos)
    }

    /// The text of this point in time in the logs.
    pub open spec fn text(self) -> Seq<char> {
        rfc3339_text(self.secs as int, self.nanos as int)
    }

    /// Whether the calendar reaches back from here for `span` seconds.
    pub open spec fn reaches_back(self, span: int) -> bool {
        earlier(self.secs as int, self.nanos as int, span) is Some
    }

    /// The point in time `span` seconds ago.
    pub open spec fn ago(self, span: int) -> Timestamp {
        let t = earlier(self.secs as int, self.nanos as int, span)->0;
        Timestamp { secs: t.0 as i64, nanos: t.1 as u32 }
    }

    /// The point in time with these seconds and nanoseconds, if the calendar has it.
    pub fn new(secs: i64, nanos: u32) -> (r: Option<Timestamp>)
        ensures
            r == (if in_calendar(secs as int, nanos as int) {
                Some((Timestamp { secs, nanos }))
            } else {
                None
            }),
            r matches Some(t) ==> t.secs == secs && t.nanos == nanos,
            r is Some <==> MIN_SECS <= secs <= MAX_SECS && (nanos < 1_000_000_000 || (nanos
                < 2_000_000_000 && (secs as int) % 60 == 59)),
    {
        if secs < MIN_SECS || secs > MAX_SECS || nanos >= 2_000_000_000 {
            return None;
        }
        if nanos >= 1_000_000_000 {
            // `%` takes the sign of its left side
            let second: i64 = secs % 60;
            if second != 59 && second != -1 {
                return None;
            }
        }
        Some(Timestamp { secs, nanos })
    }

    /// Whether this point in time comes before `other`.
    pub fn before(&self, other: &Timestamp) -> (r: bool)
        ensures
            r == self.is_before(*other),
            r == (self.secs * 10_000_000_000 + self.nanos < other.secs * 10_000_000_000
                + other.nanos),
    {
        self.secs < other.secs || (self.secs == other.secs && self.nanos < other.nanos)
    }

    /// The point in time as RFC 3339 text.
    pub fn to_rfc3339(&self) -> (r: String)
        requires
            self.valid(),
        ensures
            r@ == self.text(),
            r@ == rfc3339_text(self.secs as int, self.nanos as int),
    {
        rfc3339(self.secs, self.nanos)
    }

    /// The point in time `span` seconds before this one, if the calendar has it.
    pub fn back(&self, span: u64) -> (r: Option<Timestamp>)
        requires
            self.valid(),
            span <= MAX_SPAN_SECS,
        ensures
            r == (if self.reaches_back(span as int) {
                Some(self.ago(span as int))
            } else {
                None
            }),
            r matches Some(t) ==> t.valid(),
            self.nanos < 1_000_000_000 ==> match r {
                Some(t) => t.secs == self.secs - span && t.nanos == self.nanos,
                None => self.secs - span < MIN_SECS,
            },
            span == 0 ==> r == Some(*self),
    {
        match checked_sub(self.secs, self.nanos, span) {
            Some(t) => Some(Timestamp { secs: t.0, nanos: t.1 }),
            None => None,
        }
    }
}

/// The order of points in time is a strict total order.
pub proof fn lemma_before_is_total_order(a: Timestamp, b: Timestamp, c: Timestamp)
    ensures
        !a.is_before(a),
        a.is_before(b) && b.is_before(c) ==> a.is_before(c),
        a.is_before(b) || b.is_before(a) || a == b,
        a.is_before(b) ==> !b.is_before(a),
{
}

/// A point in time is never before the one that lies some seconds before it.
pub proof fn lemma_ago_is_not_later(t: Timestamp, span: int)
    requires
        t.valid(),
        t.reaches_back(span),
        0 <= span,
    ensures
        !t.is_before(t.ago(span)),
        t.ago(span).valid(),
{
}

/// Points in time come in the order of their seconds, and of their nanoseconds within one second.
pub proof fn lemma_before_counts_nanos(a: Timestamp, b: Timestamp)
    ensures
        a.is_before(b) <==> a.secs * 10_000_000_000 + a.nanos < b.secs * 10_000_000_000 + b.nanos,
{
}

/// Going back takes the seconds off and keeps the nanoseconds, down to the start of the calendar. A
/// leap second is the second after it, less than a second into it.
pub proof fn lemma_ago_counts_seconds(t: Timestamp, span: int)
    requires
        t.valid(),
        0 <= span,
    ensures
        t.nanos < 1_000_000_000 ==> (t.reaches_back(span) <==> t.secs - span >= -8_334_601_228_800),
        t.nanos < 1_000_000_000 && t.reaches_back(span) ==> t.ago(span).secs == t.secs - span
            && t.ago(span).nanos == t.nanos,
        t.nanos >= 1_000_000_000 && span > 0 ==> (t.reaches_back(span) <==> t.secs + 1 - span
            >= -8_334_601_228_800),
        t.nanos >= 1_000_000_000 && span > 0 && t.reaches_back(span) ==> t.ago(span).secs == t.secs
            + 1 - span && t.ago(span).nanos == t.nanos - 1_000_000_000,
        t.reaches_back(0) && t.ago(0) == t,
{
}

/// Steps back add up: going back twice is going back once by the sum, outside leap seconds.
pub proof fn lemma_ago_adds_up(t: Timestamp, first: int, second: int)
    requires
        t.valid(),
        t.nanos < 1_000_000_000,
        0 <= first,
        0 <= second,
        t.reaches_back(first + second),
    ensures
        t.reaches_back(first),
        t.ago(first).reaches_back(second),
        t.ago(first).ago(second) == t.ago(first + second),
{
}

/// What the calendar holds: the years -262143 to 262142, and a leap second only at the end of a
/// minute.
pub proof fn lemma_calendar(t: Timestamp)
    ensures
        t.valid() <==> -8_334_601_228_800 <= t.secs <= 8_210_266_876_799 && (t.nanos < 1_000_000_000
            || (t.nanos < 2_000_000_000 && t.secs as int % 60 == 59)),
{
}

} // verus!
