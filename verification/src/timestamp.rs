//! Zoned timestamps of the guide: an instant together with the UTC offset
//! it was written with.
//!
//! The guide writes timestamps as `YYYYMMDDHHMMSS ±HHMM`. The shape of that
//! pattern is checked here; the calendar arithmetic is chrono's.

use vstd::prelude::*;
use crate::text::{chars_of, is_digit};

verus! {

/// Earliest instant held: 0000-01-01T00:00:00 local time at the largest
/// offset east, in seconds since the Unix epoch.
pub const MIN_SECS: i64 = -62_167_305_599;

/// Latest instant held: 9999-12-31T23:59:59 local time at the largest
/// offset west, in seconds since the Unix epoch.
pub const MAX_SECS: i64 = 253_402_387_198;

/// An offset is less than one day either way, in seconds.
pub const OFFSET_LIMIT: i32 = 86_400;

/// Nanoseconds at or above one second denote a leap second.
pub const NANOS_PER_SEC: u32 = 1_000_000_000;

/// The error of a timestamp that does not follow the guide's pattern or
/// names no real date and time.
#[derive(Debug, PartialEq, Eq)]
pub struct MalformedTimestamp {
    /// The text that was rejected.
    pub text: String,
}

/// Whether the three numbers denote an instant and offset a `Timestamp` holds.
pub open spec fn representable(secs: int, nanos: int, offset: int) -> bool {
    &&& MIN_SECS <= secs <= MAX_SECS
    &&& 0 <= nanos < 2 * NANOS_PER_SEC
    &&& nanos >= NANOS_PER_SEC ==> secs % 60 == 59
    &&& -OFFSET_LIMIT < offset < OFFSET_LIMIT
}

/// Whether instant `(a_secs, a_nanos)` is strictly earlier than `(b_secs, b_nanos)`.
pub open spec fn earlier(a_secs: int, a_nanos: int, b_secs: int, b_nanos: int) -> bool {
    a_secs < b_secs || (a_secs == b_secs && a_nanos < b_nanos)
}

/// Whether `s` has the shape `YYYYMMDDHHMMSS ±HHMM`: fourteen digits, one
/// space, a sign and four digits, and nothing else.
pub open spec fn follows_pattern(s: Seq<char>) -> bool {
    &&& s.len() == 20
    &&& forall|i: int| 0 <= i < 14 ==> is_digit(#[trigger] s[i])
    &&& s[14] == ' '
    &&& (s[15] == '+' || s[15] == '-')
    &&& forall|i: int| 16 <= i < 20 ==> is_digit(#[trigger] s[i])
}

/// What chrono reads from `text` under the format `%Y%m%d%H%M%S %z`: the
/// instant in seconds since the epoch, its nanoseconds, and the offset in
/// seconds east; `None` where chrono rejects the text.
pub uninterp spec fn chrono_reading(text: Seq<char>) -> Option<(i64, u32, i32)>;

/// What chrono writes for an instant at an offset under the format
/// `%Y%m%d%H%M%S %z`.
pub uninterp spec fn chrono_guide_text(secs: i64, nanos: u32, offset: i32) -> Seq<char>;

/// Calls `chrono::DateTime::parse_from_str` with the guide's format. The
/// contract only names the outcome: which texts chrono accepts, and with
/// what date arithmetic, is chrono's and is not proved here.
#[verifier::external_body]
fn chrono_read(text: &str) -> (r: Option<(i64, u32, i32)>)
    ensures
        r == chrono_reading(text@),
{
    match chrono::DateTime::parse_from_str(text, "%Y%m%d%H%M%S %z") {
        Ok(t) => Some((t.timestamp(), t.timestamp_subsec_nanos(), t.offset().local_minus_utc())),
        Err(_) => None,
    }
}

/// Calls `chrono::DateTime::format` with the guide's format on the instant
/// `secs`, `nanos` shown at `offset`. The contract only names the text.
/// The bounds keep `DateTime::from_timestamp` and `FixedOffset::east_opt`
/// from returning `None`.
#[verifier::external_body]
fn chrono_write(secs: i64, nanos: u32, offset: i32) -> (r: String)
    requires
        representable(secs as int, nanos as int, offset as int),
    ensures
        r@ == chrono_guide_text(secs, nanos, offset),
{
    let zone = chrono::FixedOffset::east_opt(offset).unwrap();
    let utc = chrono::DateTime::from_timestamp(secs, nanos).unwrap();
    utc.with_timezone(&zone).format("%Y%m%d%H%M%S %z").to_string()
}

/// Whether chrono's reading exists and is representable.
pub open spec fn usable(reading: Option<(i64, u32, i32)>) -> bool {
    match reading {
        Some((secs, nanos, offset)) => representable(secs as int, nanos as int, offset as int),
        None => false,
    }
}

/// Whether `t` holds exactly the numbers of `reading`.
pub open spec fn holds(t: Timestamp, reading: Option<(i64, u32, i32)>) -> bool {
    match reading {
        Some((secs, nanos, offset)) => t.secs() == secs && t.nanos() == nanos && t.offset()
            == offset,
        None => false,
    }
}

/// Whether `text` is a timestamp of the guide: it has the pattern's shape
/// and chrono reads a representable instant and offset from it.
pub open spec fn readable(text: Seq<char>) -> bool {
    follows_pattern(text) && usable(chrono_reading(text))
}

/// Tests whether `v` has the shape of the guide's pattern.
pub fn has_pattern(v: &Vec<char>) -> (r: bool)
    ensures
        r == follows_pattern(v@),
{
    if v.len() != 20 {
        return false;
    }
    let mut i: usize = 0;
    while i < 20
        invariant
            i <= 20,
            v.len() == 20,
            forall|j: int| 0 <= j < i && j != 14 && j != 15 ==> is_digit(#[trigger] v@[j]),
        decreases 20 - i,
    {
        if i != 14 && i != 15 {
            let c = v[i];
            if !('0' <= c && c <= '9') {
                return false;
            }
        }
        i = i + 1;
    }
    v[14] == ' ' && (v[15] == '+' || v[15] == '-')
}

/// An instant with the UTC offset it is shown in.
#[derive(Debug, Clone, Copy, PartialEq, Eq)]
pub struct Timestamp {
    secs: i64,
    nanos: u32,
    offset: i32,
}

impl Timestamp {
    #[verifier::type_invariant]
    closed spec fn inv(self) -> bool {
        representable(self.secs as int, self.nanos as int, self.offset as int)
    }

    /// Whole seconds since the Unix epoch, in UTC.
    pub closed spec fn secs(self) -> int {
        self.secs as int
    }

    /// Nanoseconds past the whole second; one second or more within a leap second.
    pub closed spec fn nanos(self) -> int {
        self.nanos as int
    }

    /// Seconds east of UTC of the zone the timestamp is shown in.
    pub closed spec fn offset(self) -> int {
        self.offset as int
    }

    /// The timestamp written in the guide's pattern, as chrono writes it.
    pub open spec fn guide_text(self) -> Seq<char> {
        chrono_guide_text(self.secs() as i64, self.nanos() as u32, self.offset() as i32)
    }

    /// Whether `self` is an instant strictly before `other`; offsets play no part.
    pub open spec fn is_before(self, other: Timestamp) -> bool {
        earlier(self.secs(), self.nanos(), other.secs(), other.nanos())
    }

    /// The three numbers of a timestamp fit the machine integers they are
    /// kept in.
    pub proof fn lemma_fits(self)
        ensures
            i64::MIN <= self.secs() <= i64::MAX,
            0 <= self.nanos() <= u32::MAX,
            i32::MIN <= self.offset() <= i32::MAX,
    {
    }

    /// Makes a timestamp from its three numbers, if they are representable.
    pub fn new(secs: i64, nanos: u32, offset: i32) -> (r: Option<Timestamp>)
        ensures
            r is Some <==> representable(secs as int, nanos as int, offset as int),
            r matches Some(t) ==> t.secs() == secs && t.nanos() == nanos && t.offset() == offset,
    {
        if secs < MIN_SECS || secs > MAX_SECS {
            return None;
        }
        if nanos >= 2 * NANOS_PER_SEC {
            return None;
        }
        if offset <= -OFFSET_LIMIT || offset >= OFFSET_LIMIT {
            return None;
        }
        // `secs - MIN_SECS + 1` is not negative and differs from `secs` by a
        // whole number of minutes.
        let since_floor: i64 = secs - MIN_SECS + 1;
        if nanos >= NANOS_PER_SEC && since_floor % 60 != 59 {
            return None;
        }
        Some(Timestamp { secs, nanos, offset })
    }

    /// Decides what a guide timestamp `text` yields once chrono has read it
    /// as `reading`: the timestamp where the text has the pattern's shape,
    /// chrono accepted it and the result is representable; the error otherwise.
    pub fn from_reading(text: &str, reading: Option<(i64, u32, i32)>) -> (r: Result<
        Timestamp,
        MalformedTimestamp,
    >)
        ensures
            r is Ok <==> follows_pattern(text@) && usable(reading),
            r matches Ok(t) ==> holds(t, reading),
            r matches Err(e) ==> e.text@ == text@,
    {
        let v = chars_of(text);
        if has_pattern(&v) {
            if let Some((secs, nanos, offset)) = reading {
                if let Some(t) = Timestamp::new(secs, nanos, offset) {
                    return Ok(t);
                }
            }
        }
        Err(MalformedTimestamp { text: text.to_owned() })
    }

    /// Parses a guide timestamp of the form `YYYYMMDDHHMMSS ±HHMM`.
    pub fn parse(text: &str) -> (r: Result<Timestamp, MalformedTimestamp>)
        ensures
            r is Ok <==> readable(text@),
            r matches Ok(t) ==> holds(t, chrono_reading(text@)),
            r matches Err(e) ==> e.text@ == text@,
    {
        let reading = chrono_read(text);
        Timestamp::from_reading(text, reading)
    }

    /// Writes the timestamp in the guide's pattern, at its own offset.
    pub fn to_guide_text(&self) -> (r: String)
        ensures
            r@ == self.guide_text(),
    {
        proof {
            use_type_invariant(self);
        }
        chrono_write(self.secs, self.nanos, self.offset)
    }

    /// Whole seconds since the Unix epoch, in UTC.
    pub fn unix_seconds(&self) -> (r: i64)
        ensures
            r == self.secs(),
            representable(self.secs(), self.nanos(), self.offset()),
    {
        proof {
            use_type_invariant(self);
        }
        self.secs
    }

    /// Nanoseconds past the whole second.
    pub fn subsec_nanos(&self) -> (r: u32)
        ensures
            r == self.nanos(),
    {
        self.nanos
    }

    /// Seconds east of UTC.
    pub fn offset_seconds(&self) -> (r: i32)
        ensures
            r == self.offset(),
    {
        self.offset
    }

    /// Tests whether `self` is an instant strictly before `other`.
    pub fn before(&self, other: &Timestamp) -> (r: bool)
        ensures
            r == self.is_before(*other),
    {
        self.secs < other.secs || (self.secs == other.secs && self.nanos < other.nanos)
    }
}

} // verus!
