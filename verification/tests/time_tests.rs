use rawzip::time::{
    extract_best_timestamp, parse_extended_timestamp, parse_ntfs_timestamp, parse_unix_timestamp,
    DosDateTime, LocalDateTime, TimeZone, UtcDateTime, ZipDateTimeKind, NTFS_EPOCH_OFFSET,
};

fn utc_from_components(
    year: u16,
    month: u8,
    day: u8,
    hour: u8,
    minute: u8,
    second: u8,
    nanosecond: u32,
) -> UtcDateTime {
    UtcDateTime::from_components(year, month, day, hour, minute, second, nanosecond).unwrap()
}

fn local_from_components(
    year: u16,
    month: u8,
    day: u8,
    hour: u8,
    minute: u8,
    second: u8,
    nanosecond: u32,
) -> LocalDateTime {
    LocalDateTime::from_components(year, month, day, hour, minute, second, nanosecond).unwrap()
}

#[test]
fn test_zip_to_dos_conversion() {
    // Test normal conversion
    let zip_dt = utc_from_components(2023, 6, 15, 14, 30, 45, 0);
    let dos_dt: DosDateTime = (&zip_dt).into();
    let (dos_time, dos_date) = dos_dt.into_parts();
    let dos_dt_check = DosDateTime::new(dos_time, dos_date);

    assert_eq!(dos_dt_check.year(), 2023);
    assert_eq!(dos_dt_check.month(), 6);
    assert_eq!(dos_dt_check.day(), 15);
    assert_eq!(dos_dt_check.hour(), 14);
    assert_eq!(dos_dt_check.minute(), 30);
    assert_eq!(dos_dt_check.second(), 44); // Rounded down to even second
}

#[test]
fn test_zip_to_dos_year_saturation() {
    // Test year before DOS range (should saturate to 1980)
    let zip_dt_before = utc_from_components(1979, 6, 15, 14, 30, 45, 0);
    let dos_dt: DosDateTime = (&zip_dt_before).into();
    let (dos_time, dos_date) = dos_dt.into_parts();
    let dos_dt_check = DosDateTime::new(dos_time, dos_date);
    assert_eq!(dos_dt_check.year(), 1980); // Saturated to minimum
    assert_eq!(dos_dt_check.month(), 6);
    assert_eq!(dos_dt_check.day(), 15);

    // Test year way before DOS range
    let zip_dt_way_before = utc_from_components(1800, 1, 1, 0, 0, 0, 0);
    let dos_dt2: DosDateTime = (&zip_dt_way_before).into();
    let (dos_time2, dos_date2) = dos_dt2.into_parts();
    let dos_dt2_check = DosDateTime::new(dos_time2, dos_date2);
    assert_eq!(dos_dt2_check.year(), 1980); // Saturated to minimum

    // Test year after DOS range (should saturate to 2107)
    let zip_dt_after = utc_from_components(2108, 6, 15, 14, 30, 45, 0);
    let dos_dt3: DosDateTime = (&zip_dt_after).into();
    let (dos_time3, dos_date3) = dos_dt3.into_parts();
    let dos_dt3_check = DosDateTime::new(dos_time3, dos_date3);
    assert_eq!(dos_dt3_check.year(), 2107); // Saturated to maximum
    assert_eq!(dos_dt3_check.month(), 6);
    assert_eq!(dos_dt3_check.day(), 15);

    // Test year way after DOS range
    let zip_dt_way_after = utc_from_components(3000, 12, 31, 23, 59, 59, 0);
    let dos_dt4: DosDateTime = (&zip_dt_way_after).into();
    let (dos_time4, dos_date4) = dos_dt4.into_parts();
    let dos_dt4_check = DosDateTime::new(dos_time4, dos_date4);
    assert_eq!(dos_dt4_check.year(), 2107); // Saturated to maximum
}

#[test]
fn test_dos_datetime() {
    // Test using the From trait
    let zip_dt = utc_from_components(2023, 6, 15, 14, 30, 45, 0);
    let dos_dt: DosDateTime = (&zip_dt).into();
    assert_eq!(dos_dt.year(), 2023);
    assert_eq!(dos_dt.month(), 6);
    assert_eq!(dos_dt.day(), 15);
    assert_eq!(dos_dt.hour(), 14);
    assert_eq!(dos_dt.minute(), 30);
    assert_eq!(dos_dt.second(), 44); // Rounded down to even second
}

#[test]
fn test_dos_datetime_odd_seconds() {
    // Test that odd seconds are rounded down using the From trait
    let zip_dt_odd = utc_from_components(2020, 1, 1, 12, 30, 45, 0);
    let dos_dt_odd: DosDateTime = (&zip_dt_odd).into();
    assert_eq!(dos_dt_odd.second(), 44); // 45 rounded down to 44

    let zip_dt_even = utc_from_components(2020, 1, 1, 12, 30, 46, 0);
    let dos_dt_even: DosDateTime = (&zip_dt_even).into();
    assert_eq!(dos_dt_even.second(), 46); // 46 stays 46
}

#[test]
fn test_dos_datetime_edge_cases() {
    // Test minimum date using From trait
    let zip_dt_min = utc_from_components(1980, 1, 1, 0, 0, 0, 0);
    let dos_dt_min: DosDateTime = (&zip_dt_min).into();
    assert_eq!(dos_dt_min.year(), 1980);
    assert_eq!(dos_dt_min.month(), 1);
    assert_eq!(dos_dt_min.day(), 1);

    // Test maximum date using From trait
    let zip_dt_max = utc_from_components(2107, 12, 31, 23, 59, 58, 0);
    let dos_dt_max: DosDateTime = (&zip_dt_max).into();
    assert_eq!(dos_dt_max.year(), 2107);
    assert_eq!(dos_dt_max.month(), 12);
    assert_eq!(dos_dt_max.day(), 31);
    assert_eq!(dos_dt_max.hour(), 23);
    assert_eq!(dos_dt_max.minute(), 59);
    assert_eq!(dos_dt_max.second(), 58);
}

#[test]
fn test_dos_datetime_zero_normalization() {
    // Test that zero DOS timestamp (0x0000 0x0000) is normalized to 1980-01-01 00:00:00
    let datetime = DosDateTime::new(0x0000, 0x0000);
    assert_eq!(datetime.year(), 1980);
    assert_eq!(datetime.month(), 1); // month 0 normalized to 1
    assert_eq!(datetime.day(), 1); // day 0 normalized to 1
    assert_eq!(datetime.hour(), 0);
    assert_eq!(datetime.minute(), 0);
    assert_eq!(datetime.second(), 0);

    // Test partial zero normalization - only month is zero
    let datetime = DosDateTime::new(0x0000, 0x0001); // day=1, month=0, year=1980
    assert_eq!(datetime.year(), 1980);
    assert_eq!(datetime.month(), 1); // month 0 normalized to 1
    assert_eq!(datetime.day(), 1);
    assert_eq!(datetime.hour(), 0);
    assert_eq!(datetime.minute(), 0);
    assert_eq!(datetime.second(), 0);

    // Test partial zero normalization - only day is zero
    let datetime = DosDateTime::new(0x0000, 0x0020); // day=0, month=1, year=1980
    assert_eq!(datetime.year(), 1980);
    assert_eq!(datetime.month(), 1);
    assert_eq!(datetime.day(), 1); // day 0 normalized to 1
    assert_eq!(datetime.hour(), 0);
    assert_eq!(datetime.minute(), 0);
    assert_eq!(datetime.second(), 0);
}

#[test]
fn test_zip_datetime_dos() {
    let datetime = local_from_components(2020, 6, 15, 14, 30, 44, 0);

    assert_eq!(datetime.year(), 2020);
    assert_eq!(datetime.month(), 6);
    assert_eq!(datetime.day(), 15);
    assert_eq!(datetime.hour(), 14);
    assert_eq!(datetime.minute(), 30);
    assert_eq!(datetime.second(), 44);
    assert_eq!(datetime.nanosecond(), 0);
    assert_eq!(datetime.timezone(), TimeZone::Local);
}

#[test]
fn test_zip_datetime_unix() {
    // Unix timestamp for 2010-09-05 02:12:01 UTC
    let datetime = utc_from_components(2010, 9, 5, 2, 12, 1, 0);

    assert_eq!(datetime.year(), 2010);
    assert_eq!(datetime.month(), 9);
    assert_eq!(datetime.day(), 5);
    assert_eq!(datetime.hour(), 2);
    assert_eq!(datetime.minute(), 12);
    assert_eq!(datetime.second(), 1);
    assert_eq!(datetime.nanosecond(), 0);
    assert_eq!(datetime.timezone(), TimeZone::Utc);
}

#[test]
fn test_zip_datetime_ntfs() {
    // NTFS timestamp for roughly 2010-09-05 02:12:01 UTC with 500ms precision
    let datetime = utc_from_components(2010, 9, 5, 2, 12, 1, 500000000);

    assert_eq!(datetime.year(), 2010);
    assert_eq!(datetime.month(), 9);
    assert_eq!(datetime.day(), 5);
    assert_eq!(datetime.hour(), 2);
    assert_eq!(datetime.minute(), 12);
    assert_eq!(datetime.second(), 1);
    assert_eq!(datetime.nanosecond(), 500000000);
    assert_eq!(datetime.timezone(), TimeZone::Utc);
}

#[test]
fn test_to_unix_comprehensive() {
    // Test first day of each month in a leap year (2020)
    let jan_1_2020 = utc_from_components(2020, 1, 1, 0, 0, 0, 0);
    assert_eq!(jan_1_2020.to_unix(), 1577836800);

    let feb_29_2020 = utc_from_components(2020, 2, 29, 0, 0, 0, 0);
    assert_eq!(feb_29_2020.to_unix(), 1582934400);

    let mar_1_2020 = utc_from_components(2020, 3, 1, 0, 0, 0, 0);
    assert_eq!(mar_1_2020.to_unix(), 1583020800);

    // Test non-leap year (2021)
    let feb_28_2021 = utc_from_components(2021, 2, 28, 0, 0, 0, 0);
    assert_eq!(feb_28_2021.to_unix(), 1614470400);

    // Test century boundary (non-leap year despite being divisible by 4)
    let mar_1_1900 = utc_from_components(1900, 3, 1, 0, 0, 0, 0);
    // This is before Unix epoch, so returns negative value
    let result = mar_1_1900.to_unix();
    assert!(result < 0); // Dates before epoch return negative values

    // Test year 2038 boundary (close to u32::MAX seconds)
    let early_2038 = utc_from_components(2038, 1, 1, 0, 0, 0, 0);
    let timestamp_2038 = early_2038.to_unix();
    assert!(timestamp_2038 > 0); // Should have a valid positive timestamp

    // Test far future dates (beyond u32 range but handled by i64)
    let far_future = utc_from_components(2200, 1, 1, 0, 0, 0, 0);
    let result = far_future.to_unix();
    // Should return a valid i64 timestamp for far future dates
    assert!(result > u32::MAX as i64); // Should exceed u32 range
}

#[test]
fn test_to_unix_accuracy() {
    // Unix epoch: 1970-01-01 00:00:00 UTC = 0
    let epoch = utc_from_components(1970, 1, 1, 0, 0, 0, 0);
    assert_eq!(epoch.to_unix(), 0);

    // 2000-01-01 00:00:00 UTC = 946684800
    let y2k = utc_from_components(2000, 1, 1, 0, 0, 0, 0);
    assert_eq!(y2k.to_unix(), 946684800);

    // 2023-06-15 14:30:45 UTC = 1686839445
    let test_date = utc_from_components(2023, 6, 15, 14, 30, 45, 0);
    assert_eq!(test_date.to_unix(), 1686839445);

    // Leap year test: 2020-02-29 12:00:00 UTC = 1582977600
    let leap_day = utc_from_components(2020, 2, 29, 12, 0, 0, 0);
    assert_eq!(leap_day.to_unix(), 1582977600);

    // Test dates before Unix epoch return negative values
    let before_epoch = utc_from_components(1969, 12, 31, 23, 59, 59, 0);
    let result = before_epoch.to_unix();
    // One second before epoch should be -1
    assert_eq!(result, -1);
}

#[test]
fn test_negative_unix_timestamps() {
    // Test that negative timestamps (before 1970) work correctly
    let negative_timestamp = -86400; // One day before epoch (1969-12-31)
    let datetime = UtcDateTime::from_unix(negative_timestamp);

    assert_eq!(datetime.year(), 1969);
    assert_eq!(datetime.month(), 12);
    assert_eq!(datetime.day(), 31);
    assert_eq!(datetime.hour(), 0);
    assert_eq!(datetime.minute(), 0);
    assert_eq!(datetime.second(), 0);

    // Round trip test
    assert_eq!(datetime.to_unix(), negative_timestamp);
}

#[test]
fn test_days_from_civil() {
    // Test Unix epoch
    let epoch = utc_from_components(1970, 1, 1, 0, 0, 0, 0);
    assert_eq!(epoch.days_from_civil(), 0);

    // Test Y2K (verified with Python)
    let y2k = utc_from_components(2000, 1, 1, 0, 0, 0, 0);
    assert_eq!(y2k.days_from_civil(), 10957);

    // Test leap year boundary (verified with Python)
    let leap_day = utc_from_components(2020, 2, 29, 0, 0, 0, 0);
    assert_eq!(leap_day.days_from_civil(), 18321);

    // Test before epoch (negative value)
    let before_epoch = utc_from_components(1969, 12, 31, 0, 0, 0, 0);
    assert_eq!(before_epoch.days_from_civil(), -1);
}

#[test]
fn test_zip_datetime_display() {
    // Test with zero nanoseconds - should omit the nanosecond part
    let datetime_no_nanos = utc_from_components(2023, 6, 15, 14, 30, 42, 0);
    assert_eq!(datetime_no_nanos.to_string(), "2023-06-15T14:30:42Z");

    // Test with non-zero nanoseconds - should include the nanosecond part
    let datetime_with_nanos = utc_from_components(2023, 6, 15, 14, 30, 42, 500000000);
    assert_eq!(
        datetime_with_nanos.to_string(),
        "2023-06-15T14:30:42.500000000Z"
    );

    // Test local time with zero nanoseconds
    let datetime_local = local_from_components(2023, 6, 15, 14, 30, 42, 0);
    assert_eq!(datetime_local.to_string(), "2023-06-15T14:30:42");

    // Test local time with nanoseconds
    let datetime_local_nanos = local_from_components(2023, 6, 15, 14, 30, 42, 123456789);
    assert_eq!(
        datetime_local_nanos.to_string(),
        "2023-06-15T14:30:42.123456789"
    );
}

#[test]
fn test_parse_extended_timestamp() {
    // Extended timestamp with modification time flag and Unix timestamp
    let mut data = vec![0x01]; // Flags: modification time present
    data.extend_from_slice(&1283652721u32.to_le_bytes()); // Unix timestamp

    let result = parse_extended_timestamp(&data).unwrap();
    // Check that it's a Unix timestamp with the right components
    assert_eq!(result.year(), 2010);
    assert_eq!(result.month(), 9);
    assert_eq!(result.day(), 5);
    assert_eq!(result.hour(), 2);
    assert_eq!(result.minute(), 12);
    assert_eq!(result.second(), 1);
    assert_eq!(result.timezone(), TimeZone::Utc);
}

#[test]
fn test_parse_unix_timestamp() {
    // Unix timestamp format: access time (4 bytes) + modification time (4 bytes)
    let mut data = vec![];
    data.extend_from_slice(&0u32.to_le_bytes()); // Access time (ignored)
    data.extend_from_slice(&1283652721u32.to_le_bytes()); // Modification time

    let result = parse_unix_timestamp(&data).unwrap();
    // Check that it's a Unix timestamp with the right components
    assert_eq!(result.year(), 2010);
    assert_eq!(result.month(), 9);
    assert_eq!(result.day(), 5);
    assert_eq!(result.hour(), 2);
    assert_eq!(result.minute(), 12);
    assert_eq!(result.second(), 1);
    assert_eq!(result.timezone(), TimeZone::Utc);
}

#[test]
fn test_parse_ntfs_timestamp() {
    // NTFS timestamp format
    let mut data = vec![0; 4]; // Reserved
    data.extend_from_slice(&0x0001u16.to_le_bytes()); // Tag
    data.extend_from_slice(&24u16.to_le_bytes()); // Size

    // NTFS timestamp (100-nanosecond ticks since 1601-01-01)
    let ticks = (1283652721 + NTFS_EPOCH_OFFSET) * 10_000_000;
    data.extend_from_slice(&ticks.to_le_bytes()); // Modification time
    data.extend_from_slice(&0u64.to_le_bytes()); // Access time
    data.extend_from_slice(&0u64.to_le_bytes()); // Creation time

    let result = parse_ntfs_timestamp(&data).unwrap();
    // Check that it's an NTFS timestamp with the right components
    assert_eq!(result.year(), 2010);
    assert_eq!(result.month(), 9);
    assert_eq!(result.day(), 5);
    assert_eq!(result.hour(), 2);
    assert_eq!(result.minute(), 12);
    assert_eq!(result.second(), 1);
    assert_eq!(result.timezone(), TimeZone::Utc);
}

#[test]
fn test_zip_datetime_ordering() {
    let dt1 = UtcDateTime::from_components(2020, 1, 1, 0, 0, 0, 0).unwrap();
    let dt2 = UtcDateTime::from_components(2020, 1, 1, 0, 0, 0, 500_000_000).unwrap(); // Same time, more nanoseconds
    let dt3 = UtcDateTime::from_components(2020, 1, 1, 0, 0, 1, 0).unwrap(); // One second later
    let dt4 = UtcDateTime::from_components(2020, 1, 1, 0, 1, 0, 0).unwrap(); // One minute later
    let dt5 = UtcDateTime::from_components(2020, 1, 1, 1, 0, 0, 0).unwrap(); // One hour later
    let dt6 = UtcDateTime::from_components(2020, 1, 2, 0, 0, 0, 0).unwrap(); // One day later
    let dt7 = UtcDateTime::from_components(2020, 2, 1, 0, 0, 0, 0).unwrap(); // One month later
    let dt8 = UtcDateTime::from_components(2021, 1, 1, 0, 0, 0, 0).unwrap(); // One year later

    let mut timestamps = vec![dt8, dt3, dt1, dt6, dt4, dt2, dt7, dt5];
    timestamps.sort_unstable();
    let expected = vec![dt1, dt2, dt3, dt4, dt5, dt6, dt7, dt8];
    assert_eq!(
        timestamps, expected,
        "sorting should produce chronological order"
    );
}

#[test]
fn test_timezone_api_and_validation() {
    // Create UTC timestamp with validation
    let utc_time = UtcDateTime::from_components(2023, 6, 15, 14, 30, 45, 0).unwrap();
    let local_time = LocalDateTime::from_components(2023, 6, 15, 14, 30, 45, 0).unwrap();

    // Verify timestamp properties
    assert_eq!(utc_time.year(), 2023);
    assert_eq!(utc_time.month(), 6);
    assert_eq!(utc_time.day(), 15);
    assert_eq!(utc_time.hour(), 14);
    assert_eq!(utc_time.minute(), 30);
    assert_eq!(utc_time.second(), 45);
    assert_eq!(utc_time.nanosecond(), 0);

    // Verify timezone types work
    assert_eq!(utc_time.timezone(), TimeZone::Utc);
    assert_eq!(local_time.timezone(), TimeZone::Local);

    // Test date validation
    assert!(UtcDateTime::from_components(2023, 2, 30, 0, 0, 0, 0).is_none()); // Feb 30th
    assert!(LocalDateTime::from_components(2023, 13, 1, 0, 0, 0, 0).is_none()); // 13th month
    assert!(UtcDateTime::from_components(2023, 4, 31, 0, 0, 0, 0).is_none()); // April 31st

    // Test leap year validation
    assert!(UtcDateTime::from_components(2020, 2, 29, 0, 0, 0, 0).is_some()); // 2020 is leap year
    assert!(UtcDateTime::from_components(2021, 2, 29, 0, 0, 0, 0).is_none()); // 2021 is not leap year
}

#[test]
fn test_parsed_datetime_functionality() {
    // UTC timestamps can be used for Extended Timestamp writing
    let utc_dt = UtcDateTime::from_components(2023, 6, 15, 14, 30, 45, 0).unwrap();

    // Local timestamps are for reading legacy ZIP files
    let local_dt = LocalDateTime::from_components(1995, 1, 1, 12, 0, 0, 0).unwrap();

    // ZipDateTimeKind can represent either
    let parsed_utc = ZipDateTimeKind::Utc(utc_dt);
    let parsed_local = ZipDateTimeKind::Local(local_dt);

    // Both can be queried uniformly
    assert_eq!(parsed_utc.year(), 2023);
    assert_eq!(parsed_local.year(), 1995);
    assert_eq!(parsed_utc.timezone(), TimeZone::Utc);
    assert_eq!(parsed_local.timezone(), TimeZone::Local);
}

#[test]
fn from_unix_goes_back_before_the_epoch_second_by_second() {
    let t = UtcDateTime::from_unix(-1);
    assert_eq!(
        (t.year(), t.month(), t.day(), t.hour(), t.minute(), t.second()),
        (1969, 12, 31, 23, 59, 59)
    );
    assert_eq!(t.to_unix(), -1);
}

#[test]
fn from_unix_saturates_at_the_first_and_last_moment() {
    let first = UtcDateTime::from_unix(i64::MIN);
    assert_eq!(first.to_string(), "0001-01-01T00:00:00Z");
    let last = UtcDateTime::from_unix(i64::MAX);
    assert_eq!(last.to_string(), "65535-12-31T23:59:59Z");
    assert_eq!(last.to_unix(), 2005949145599);
    assert_eq!(first.to_unix(), -62135596800);
}

#[test]
fn unix_seconds_round_trip_over_many_moments() {
    let mut s: i64 = -62135596800;
    while s <= 2005949145599 {
        let t = UtcDateTime::from_unix(s);
        assert_eq!(t.to_unix(), s);
        s += 1_234_567_891;
    }
}

#[test]
fn ntfs_ticks_before_the_unix_epoch_give_the_epoch() {
    let t = UtcDateTime::from_ntfs(12_345_678);
    assert_eq!(t.to_string(), "1970-01-01T00:00:00.234567800Z");
}

#[test]
fn last_timestamp_of_the_extra_field_wins() {
    let mut extra = Vec::new();
    // An extended timestamp of 1 second.
    extra.extend_from_slice(&0x5455u16.to_le_bytes());
    extra.extend_from_slice(&5u16.to_le_bytes());
    extra.push(1);
    extra.extend_from_slice(&1u32.to_le_bytes());
    // A block of another kind.
    extra.extend_from_slice(&0x1234u16.to_le_bytes());
    extra.extend_from_slice(&2u16.to_le_bytes());
    extra.extend_from_slice(&[9, 9]);
    // An obsolete Unix timestamp of 2 seconds.
    extra.extend_from_slice(&0x5855u16.to_le_bytes());
    extra.extend_from_slice(&8u16.to_le_bytes());
    extra.extend_from_slice(&0u32.to_le_bytes());
    extra.extend_from_slice(&2u32.to_le_bytes());
    let t = extract_best_timestamp(&extra, 0, 0);
    assert_eq!(t, ZipDateTimeKind::Utc(UtcDateTime::from_unix(2)));
    // A block that is not whole ends the walk.
    extra.extend_from_slice(&0x5455u16.to_le_bytes());
    extra.extend_from_slice(&5u16.to_le_bytes());
    extra.push(1);
    let t = extract_best_timestamp(&extra, 0, 0);
    assert_eq!(t, ZipDateTimeKind::Utc(UtcDateTime::from_unix(2)));
}

#[test]
fn dos_fields_are_the_fallback_in_local_time() {
    let t = extract_best_timestamp(&[], 0, 0);
    assert_eq!(
        t,
        ZipDateTimeKind::Local(LocalDateTime::from_components(1980, 1, 1, 0, 0, 0, 0).unwrap())
    );
    assert_eq!(t.to_string(), "1980-01-01T00:00:00");
    // An extended timestamp without the modification time flag holds none.
    let extra = [0x55, 0x54, 5, 0, 0, 1, 0, 0, 0];
    assert_eq!(extract_best_timestamp(&extra, 0, 0).timezone(), TimeZone::Local);
}

#[test]
fn dos_day_is_brought_into_its_month() {
    // 2021-02-31 does not exist: the day is the last of February.
    let date: u16 = ((2021 - 1980) << 9) | (2 << 5) | 31;
    let d = DosDateTime::new(0xFFFF, date);
    assert_eq!((d.year(), d.month(), d.day()), (2021, 2, 28));
    assert_eq!((d.hour(), d.minute(), d.second()), (23, 59, 58));
}
