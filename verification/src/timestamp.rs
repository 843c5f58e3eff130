//! Frame and file timestamps: counts of 100 ns ticks since 0001-01-01.

use chrono::{NaiveDate, NaiveDateTime, TimeDelta};
use vstd::prelude::*;

verus! {

/// An integer representing the number of 100 nanosecond periods from the
/// Common Era epoch Jan 1, 0001.
///
/// Only the low 62 bits carry the time. A value whose low 62 bits are all
/// zero marks an "invalid" or "unused" timestamp. The header's `datetime`
/// field is also invalid when it is at most 0 as a signed 64-bit integer
/// (see [datetime_of]).
#[derive(Clone, Copy, Debug, PartialEq, Eq)]
pub enum Timestamp {
    Valid(u64),
    Invalid(u64),
}

/// The bits of a raw timestamp that hold the tick count.
pub open spec fn tick_mask() -> u64 {
    0x3fff_ffff_ffff_ffffu64
}

/// The timestamp that a raw 64-bit value decodes to: invalid when it
/// counts no tick.
pub open spec fn timestamp_of(raw: u64) -> Timestamp {
    if raw & tick_mask() == 0 {
        Timestamp::Invalid(raw)
    } else {
        Timestamp::Valid(raw)
    }
}

/// The timestamp that the header's `datetime` field decodes to: invalid
/// when it is at most 0 as a signed 64-bit integer or counts no tick.
pub open spec fn datetime_of(raw: u64) -> Timestamp {
    if raw & tick_mask() == 0 || raw > 0x7fff_ffff_ffff_ffffu64 {
        Timestamp::Invalid(raw)
    } else {
        Timestamp::Valid(raw)
    }
}

impl Timestamp {
    /// Mask of the 62 bits that count ticks.
    pub const MASK: u64 = 0x3fff_ffff_ffff_ffffu64;

    /// The raw 64-bit field this timestamp is written as.
    pub open spec fn raw(self) -> u64 {
        match self {
            Timestamp::Valid(v) => v,
            Timestamp::Invalid(v) => v,
        }
    }

    pub open spec fn spec_is_valid(&self) -> bool {
        self is Valid
    }

    /// True when the variant agrees with the tick bits of the raw value,
    /// as it does for every timestamp decoded from a file.
    pub open spec fn is_canonical(self) -> bool {
        self == timestamp_of(self.raw())
    }

    /// True when the variant agrees with the raw value read as the
    /// header's `datetime` field.
    pub open spec fn is_canonical_datetime(self) -> bool {
        self == datetime_of(self.raw())
    }

    /// The header's `datetime` field read from its raw value: invalid when
    /// it is at most 0 as a signed 64-bit integer or counts no tick.
    pub fn from_datetime_field(raw: u64) -> (r: Timestamp)
        ensures
            r == datetime_of(raw),
    {
        if raw & Timestamp::MASK == 0 || raw > 0x7fff_ffff_ffff_ffffu64 {
            Timestamp::Invalid(raw)
        } else {
            Timestamp::Valid(raw)
        }
    }

    #[verifier::when_used_as_spec(spec_is_valid)]
    pub fn is_valid(&self) -> (r: bool)
        ensures
            r == self.spec_is_valid(),
    {
        matches!(self, Timestamp::Valid(_))
    }
}

/// Decoding a raw value and writing it back gives the raw value; the
/// decoded timestamp is valid exactly when a tick bit is set, and the
/// decoded `datetime` field exactly when moreover the value is positive as
/// a signed integer.
pub proof fn lemma_timestamp_raw_roundtrip(raw: u64)
    ensures
        timestamp_of(raw).raw() == raw,
        timestamp_of(raw).is_canonical(),
        timestamp_of(raw).spec_is_valid() == (raw & tick_mask() != 0),
        datetime_of(raw).raw() == raw,
        datetime_of(raw).is_canonical_datetime(),
        datetime_of(raw).spec_is_valid() == ((raw as i64) > 0 && raw & tick_mask() != 0),
{
    assert(((raw as i64) > 0 && raw & 0x3fff_ffff_ffff_ffffu64 != 0) == (raw
        <= 0x7fff_ffff_ffff_ffffu64 && raw & 0x3fff_ffff_ffff_ffffu64 != 0)) by (bit_vector);
}

impl Default for Timestamp {
    fn default() -> (r: Self)
        ensures
            r == Timestamp::Invalid(0),
    {
        Timestamp::Invalid(0)
    }
}

impl From<u64> for Timestamp {
    fn from(value: u64) -> (r: Self) {
        if value & Timestamp::MASK == 0 {
            Timestamp::Invalid(value)
        } else {
            Timestamp::Valid(value)
        }
    }
}

impl vstd::std_specs::convert::FromSpecImpl<u64> for Timestamp {
    open spec fn obeys_from_spec() -> bool {
        true
    }

    open spec fn from_spec(v: u64) -> Self {
        timestamp_of(v)
    }
}

impl From<&Timestamp> for u64 {
    fn from(value: &Timestamp) -> (r: Self) {
        match value {
            Timestamp::Valid(v) => *v,
            Timestamp::Invalid(v) => *v,
        }
    }
}

impl vstd::std_specs::convert::FromSpecImpl<&Timestamp> for u64 {
    open spec fn obeys_from_spec() -> bool {
        true
    }

    open spec fn from_spec(v: &Timestamp) -> Self {
        v.raw()
    }
}

/// Why a timestamp has no date or time.
#[derive(Debug, Clone, Copy, PartialEq, Eq)]
pub enum TimestampError {
    /// The timestamp is invalid.
    Invalid,
    /// The time lies outside the range that 64-bit nanoseconds around
    /// 1970-01-01 can hold (about 1677 to 2262).
    OutOfRange,
}

/// Where a time lies relative to 1970-01-01 00:00:00 UTC, in nanoseconds.
#[derive(Debug, Clone, Copy, PartialEq, Eq)]
pub enum UnixOffset {
    /// That many nanoseconds after (or at) 1970-01-01 00:00:00.
    After(u64),
    /// That many nanoseconds before 1970-01-01 00:00:00.
    Before(u64),
}

#[verifier::external_type_specification]
#[verifier::external_body]
pub struct ExNaiveDateTime(NaiveDateTime);

/// The largest microsecond count a timestamp can stand for: the 62 tick
/// bits, in units of 100 ns, divided by ten.
pub open spec fn max_micros() -> u64 {
    0x0666_6666_6666_6666u64
}

/// Microseconds from 0001-01-01 to 1970-01-01.
pub open spec fn unix_epoch_micros() -> int {
    62_135_596_800_000_000
}

/// The text that chrono's `NaiveDateTime` `Display` gives for 0001-01-01
/// 00:00:00 plus `micros` microseconds ("2026-03-08 22:10:11.555915").
pub uninterp spec fn ce_datetime_text(micros: u64) -> Seq<char>;

/// chrono's `NaiveDateTime` for 0001-01-01 00:00:00 plus `micros`
/// microseconds.
pub uninterp spec fn ce_datetime(micros: u64) -> NaiveDateTime;

/// `chrono::NaiveDate::from_ymd_opt(1, 1, 1)`, `and_hms_opt(0, 0, 0)` and
/// `checked_add_signed(TimeDelta::microseconds(micros))`: midnight of
/// 0001-01-01 plus `micros` microseconds. Claimed: it exists for every
/// count up to [max_micros], about 14,600 years, well inside chrono's
/// range of ±262,000 years, and is named [ce_datetime].
#[verifier::external_body]
fn datetime_from_micros(micros: u64) -> (r: Option<NaiveDateTime>)
    requires
        micros <= max_micros(),
    ensures
        r.is_some(),
        r.unwrap() == ce_datetime(micros),
{
    let start = NaiveDate::from_ymd_opt(1, 1, 1)?.and_hms_opt(0, 0, 0)?;
    start.checked_add_signed(TimeDelta::microseconds(micros as i64))
}

/// The same date-time as [datetime_from_micros], in chrono's `Display`
/// form. Claimed: it exists for every count up to [max_micros]; its text
/// is named [ce_datetime_text].
#[verifier::external_body]
fn datetime_text_from_micros(micros: u64) -> (r: Option<String>)
    requires
        micros <= max_micros(),
    ensures
        r.is_some(),
        r.unwrap()@ == ce_datetime_text(micros),
{
    let start = NaiveDate::from_ymd_opt(1, 1, 1)?.and_hms_opt(0, 0, 0)?;
    Some(start.checked_add_signed(TimeDelta::microseconds(micros as i64))?.to_string())
}

/// The microseconds a tick count stands for: the low 62 bits of the raw
/// value, in units of 100 ns, divided by ten.
pub open spec fn micros_of(raw: u64) -> u64 {
    ((raw & tick_mask()) / 10) as u64
}

/// Nanoseconds from 1970-01-01 00:00:00 to a time `micros` microseconds
/// after 0001-01-01 00:00:00.
pub open spec fn unix_nanos_of(micros: u64) -> int {
    (micros - unix_epoch_micros()) * 1000
}

proof fn lemma_micros_bound(raw: u64)
    ensures
        micros_of(raw) <= max_micros(),
{
    assert(raw & 0x3fff_ffff_ffff_ffffu64 <= 0x3fff_ffff_ffff_ffffu64) by (bit_vector);
}

/// The top two bits of a raw value carry no time: the tick count is the
/// value modulo 2^62, a timestamp counts microseconds as whole tenths of
/// that count, and it is valid exactly when that count is not zero; the
/// header's `datetime` field is valid exactly when moreover the value is
/// below 2^63.
pub proof fn lemma_ticks(raw: u64)
    ensures
        micros_of(raw) as int == (raw as int % 0x4000_0000_0000_0000) / 10,
        timestamp_of(raw).spec_is_valid() <==> raw as int % 0x4000_0000_0000_0000 != 0,
        datetime_of(raw).spec_is_valid() <==> (raw as int % 0x4000_0000_0000_0000 != 0 && raw
            < 0x8000_0000_0000_0000u64),
        timestamp_of(raw).raw() == raw,
        datetime_of(raw).raw() == raw,
{
    assert(raw & 0x3fff_ffff_ffff_ffffu64 == raw % 0x4000_0000_0000_0000u64) by (bit_vector);
}

impl Timestamp {
    /// Microseconds since 0001-01-01 00:00:00 of a valid timestamp; `None`
    /// for an invalid one.
    pub fn micros_since_epoch(&self) -> (r: Option<u64>)
        ensures
            r == match *self {
                Timestamp::Valid(t) => Some(micros_of(t)),
                Timestamp::Invalid(_) => None::<u64>,
            },
    {
        match self {
            Timestamp::Valid(t) => Some((*t & Timestamp::MASK) / 10),
            Timestamp::Invalid(_) => None,
        }
    }

    /// The calendar date and time of a valid timestamp: 0001-01-01
    /// 00:00:00 plus its microseconds. Every valid timestamp has one.
    pub fn to_naive_datetime(&self) -> (r: Result<NaiveDateTime, TimestampError>)
        ensures
            self.spec_is_valid() <==> r is Ok,
            !self.spec_is_valid() ==> r == Err::<NaiveDateTime, _>(TimestampError::Invalid),
            r matches Ok(d) ==> d == ce_datetime(micros_of(self.raw())),
    {
        match self.micros_since_epoch() {
            Some(m) => {
                proof {
                    lemma_micros_bound(self.raw());
                }
                match datetime_from_micros(m) {
                    Some(n) => Ok(n),
                    None => Err(TimestampError::OutOfRange),
                }
            },
            None => Err(TimestampError::Invalid),
        }
    }

    /// The text of the timestamp's date and time, or "None" when it is
    /// invalid.
    pub fn to_display_string(&self) -> (r: String)
        ensures
            match *self {
                Timestamp::Valid(t) => r@ == ce_datetime_text(micros_of(t)),
                Timestamp::Invalid(_) => r@ == "None"@,
            },
    {
        match self.micros_since_epoch() {
            Some(m) => {
                proof {
                    lemma_micros_bound(self.raw());
                }
                match datetime_text_from_micros(m) {
                    Some(t) => t,
                    None => "None".to_owned(),
                }
            },
            None => "None".to_owned(),
        }
    }

    /// Nanoseconds since 1970-01-01 00:00:00 UTC of a valid timestamp,
    /// when they fit in an `i64`.
    pub fn unix_nanos(&self) -> (r: Result<i64, TimestampError>)
        ensures
            match *self {
                Timestamp::Valid(t) => if i64::MIN <= unix_nanos_of(micros_of(t)) <= i64::MAX {
                    r == Ok::<i64, TimestampError>(unix_nanos_of(micros_of(t)) as i64)
                } else {
                    r == Err::<i64, TimestampError>(TimestampError::OutOfRange)
                },
                Timestamp::Invalid(_) => r == Err::<i64, TimestampError>(TimestampError::Invalid),
            },
    {
        let m = match self.micros_since_epoch() {
            Some(m) => m,
            None => return Err(TimestampError::Invalid),
        };
        proof {
            lemma_micros_bound(self.raw());
        }
        let n: i128 = (m as i128 - 62_135_596_800_000_000i128) * 1000;
        if n < i64::MIN as i128 || n > i64::MAX as i128 {
            Err(TimestampError::OutOfRange)
        } else {
            Ok(n as i64)
        }
    }

    /// Where a valid timestamp lies relative to 1970-01-01 00:00:00 UTC,
    /// when the distance in nanoseconds fits in an `i64`.
    pub fn unix_offset(&self) -> (r: Result<UnixOffset, TimestampError>)
        ensures
            match *self {
                Timestamp::Valid(t) => if i64::MIN <= unix_nanos_of(micros_of(t)) <= i64::MAX {
                    if unix_nanos_of(micros_of(t)) >= 0 {
                        r == Ok::<UnixOffset, TimestampError>(
                            UnixOffset::After(unix_nanos_of(micros_of(t)) as u64),
                        )
                    } else {
                        r == Ok::<UnixOffset, TimestampError>(
                            UnixOffset::Before((-unix_nanos_of(micros_of(t))) as u64),
                        )
                    }
                } else {
                    r == Err::<UnixOffset, TimestampError>(TimestampError::OutOfRange)
                },
                Timestamp::Invalid(_) => r == Err::<UnixOffset, TimestampError>(
                    TimestampError::Invalid,
                ),
            },
    {
        let n = self.unix_nanos()?;
        if n >= 0 {
            Ok(UnixOffset::After(n as u64))
        } else {
            proof {
                assert(n % 1000 == 0);
            }
            Ok(UnixOffset::Before((-(n as i128)) as u64))
        }
    }
}

} // verus!
