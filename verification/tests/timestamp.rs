use ser_file::{Timestamp, TimestampError, UnixOffset};

const README_TICKS: u64 = 639086046115182200;
const UNIX_EPOCH_TICKS: u64 = 621355968000000000;

#[test]
fn raw_zero_is_invalid() {
    assert_eq!(Timestamp::from(0u64), Timestamp::Invalid(0));
    assert!(!Timestamp::from(0u64).is_valid());
}

#[test]
fn only_the_top_two_bits_set_is_invalid() {
    let raw = 0b11u64 << 62;
    assert_eq!(Timestamp::from(raw), Timestamp::Invalid(raw));
    let raw = 1u64 << 62;
    assert_eq!(Timestamp::from(raw), Timestamp::Invalid(raw));
}

#[test]
fn positive_values_with_ticks_are_valid() {
    assert_eq!(Timestamp::from(5u64), Timestamp::Valid(5));
    let raw = (1u64 << 62) | 1;
    assert_eq!(Timestamp::from(raw), Timestamp::Valid(raw));
    assert!(Timestamp::from(raw).is_valid());
}

#[test]
fn top_bit_does_not_decide_validity() {
    assert_eq!(Timestamp::from(u64::MAX), Timestamp::Valid(u64::MAX));
    let raw = (1u64 << 63) | 1;
    assert_eq!(Timestamp::from(raw), Timestamp::Valid(raw));
    assert_eq!(Timestamp::from(raw).micros_since_epoch(), Some(0));
}

#[test]
fn negative_datetime_field_is_invalid() {
    assert_eq!(Timestamp::from_datetime_field(u64::MAX), Timestamp::Invalid(u64::MAX));
    let raw = (1u64 << 63) | 1;
    assert_eq!(Timestamp::from_datetime_field(raw), Timestamp::Invalid(raw));
    assert_eq!(Timestamp::from_datetime_field(0), Timestamp::Invalid(0));
    assert_eq!(Timestamp::from_datetime_field(1 << 62), Timestamp::Invalid(1 << 62));
    assert_eq!(Timestamp::from_datetime_field(5), Timestamp::Valid(5));
}

#[test]
fn raw_value_survives_decoding() {
    for raw in [0u64, 1, 5, 1 << 62, (1 << 62) | 7, u64::MAX, README_TICKS] {
        assert_eq!(u64::from(&Timestamp::from(raw)), raw);
    }
}

#[test]
fn default_timestamp_is_invalid_zero() {
    assert_eq!(Timestamp::default(), Timestamp::Invalid(0));
    assert_eq!(Timestamp::MASK, 0x3fff_ffff_ffff_ffff);
}

#[test]
fn micros_ignore_the_top_bits() {
    assert_eq!(Timestamp::Valid(100).micros_since_epoch(), Some(10));
    assert_eq!(Timestamp::Valid((1 << 62) | 109).micros_since_epoch(), Some(10));
    assert_eq!(Timestamp::Invalid(100).micros_since_epoch(), None);
}

#[test]
fn invalid_timestamp_displays_none() {
    assert_eq!(Timestamp::Invalid(0).to_display_string(), "None");
    assert_eq!(Timestamp::Invalid(1 << 62).to_display_string(), "None");
}

#[test]
fn valid_timestamp_displays_its_date() {
    assert_eq!(
        Timestamp::from(README_TICKS).to_display_string(),
        "2026-03-08 22:10:11.518220"
    );
    assert_eq!(
        Timestamp::Valid(10).to_display_string(),
        "0001-01-01 00:00:00.000001"
    );
}

#[test]
fn naive_datetime_of_invalid_is_refused() {
    assert_eq!(
        Timestamp::Invalid(3).to_naive_datetime().err(),
        Some(TimestampError::Invalid)
    );
}

#[test]
fn naive_datetime_adds_micros_to_year_one() {
    let naive = Timestamp::Valid(UNIX_EPOCH_TICKS + 10_000_000).to_naive_datetime().unwrap();
    assert_eq!(naive.to_string(), "1970-01-01 00:00:01");
}

#[test]
fn unix_nanos_of_the_unix_epoch_is_zero() {
    assert_eq!(Timestamp::Valid(UNIX_EPOCH_TICKS).unix_nanos(), Ok(0));
    assert_eq!(Timestamp::Valid(UNIX_EPOCH_TICKS + 15).unix_nanos(), Ok(1000));
    assert_eq!(
        Timestamp::Valid(UNIX_EPOCH_TICKS - 10).unix_nanos(),
        Ok(-1000)
    );
}

#[test]
fn unix_nanos_refuses_invalid_and_far_dates() {
    assert_eq!(Timestamp::Invalid(0).unix_nanos(), Err(TimestampError::Invalid));
    // Year 1 lies before 1677, outside the nanosecond range.
    assert_eq!(Timestamp::Valid(10).unix_nanos(), Err(TimestampError::OutOfRange));
}

#[test]
fn unix_epoch_displays_as_1970() {
    assert_eq!(Timestamp::Valid(UNIX_EPOCH_TICKS).to_display_string(), "1970-01-01 00:00:00");
}

#[test]
fn every_valid_timestamp_has_a_date() {
    assert!(Timestamp::Valid(10).to_naive_datetime().is_ok());
    assert_eq!(
        Timestamp::Valid(Timestamp::MASK).to_naive_datetime().unwrap().to_string(),
        Timestamp::Valid(Timestamp::MASK).to_display_string()
    );
}

#[test]
fn unix_offset_gives_the_side_of_1970() {
    assert_eq!(Timestamp::Valid(UNIX_EPOCH_TICKS + 10).unix_offset(), Ok(UnixOffset::After(1000)));
    assert_eq!(Timestamp::Valid(UNIX_EPOCH_TICKS - 10).unix_offset(), Ok(UnixOffset::Before(1000)));
    assert_eq!(Timestamp::Valid(10).unix_offset(), Err(TimestampError::OutOfRange));
    assert_eq!(Timestamp::Invalid(7).unix_offset(), Err(TimestampError::Invalid));
}
