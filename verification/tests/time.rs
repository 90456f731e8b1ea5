use rastro::coordinates::EllipsoidalConversionType;
use rastro::time::{
    epoch_string_panics, parse_epoch_string, split_gps_nanoseconds, str_to_time_system, string_to_time_system,
    time_system_to_string, EpochFields, TimeSystem,
};

fn fields(s: &str) -> (u32, u8, u8, u8, u8, f64, f64, TimeSystem) {
    let f: EpochFields = parse_epoch_string(s).unwrap();
    (f.year, f.month, f.day, f.hour, f.minute, f.second as f64, f.nanosecond as f64, f.time_system)
}

#[test]
fn test_epoch_from_string() {
    assert_eq!(fields("2018-12-20"), (2018, 12, 20, 0, 0, 0.0, 0.0, TimeSystem::UTC));
    assert_eq!(fields("2018-12-20T16:22:19.0Z"), (2018, 12, 20, 16, 22, 19.0, 0.0, TimeSystem::UTC));
    assert_eq!(fields("2018-12-20T16:22:19.123Z"), (2018, 12, 20, 16, 22, 19.0, 123000000.0, TimeSystem::UTC));
    assert_eq!(fields("2018-12-20T16:22:19.123456789Z"), (2018, 12, 20, 16, 22, 19.0, 123456789.0, TimeSystem::UTC));
    assert_eq!(fields("2018-12-20T16:22:19Z"), (2018, 12, 20, 16, 22, 19.0, 0.0, TimeSystem::UTC));
    assert_eq!(fields("20181220T162219Z"), (2018, 12, 20, 16, 22, 19.0, 0.0, TimeSystem::UTC));
    assert_eq!(fields("2018-12-01 16:22:19 GPS"), (2018, 12, 1, 16, 22, 19.0, 0.0, TimeSystem::GPS));
    assert_eq!(fields("2018-12-01 16:22:19.0 GPS"), (2018, 12, 1, 16, 22, 19.0, 0.0, TimeSystem::GPS));
    assert_eq!(fields("2018-12-01 16:22:19.123 GPS"), (2018, 12, 1, 16, 22, 19.0, 123000000.0, TimeSystem::GPS));
    assert_eq!(fields("2018-12-01 16:22:19.123456789 GPS"), (2018, 12, 1, 16, 22, 19.0, 123456789.0, TimeSystem::GPS));
}

#[test]
fn epoch_string_other_forms() {
    assert_eq!(fields("2018-12-01 16:22:19 TT"), (2018, 12, 1, 16, 22, 19.0, 0.0, TimeSystem::TT));
    assert_eq!(fields("2018-12-01\u{3000}16:22:19..  5   TAI"), (2018, 12, 1, 16, 22, 19.0, 500000000.0, TimeSystem::TAI));
    assert_eq!(fields("2018-12-01 16:22:19.5UTC"), (2018, 12, 1, 16, 22, 19.0, 500000000.0, TimeSystem::UTC));
    // "UT1" holds a digit, so the spaced form's capital letters cannot spell it.
    assert_eq!(parse_epoch_string("2018-12-01 16:22:19 UT1"), None);
    assert_eq!(fields("2022-04-01T01:02:03Z.456Z"), (2022, 4, 1, 1, 2, 3.0, 456000000.0, TimeSystem::UTC));
    assert_eq!(fields("2022-04-01T01:02:03Z.Z"), (2022, 4, 1, 1, 2, 3.0, 0.0, TimeSystem::UTC));
    assert_eq!(parse_epoch_string("2022-04-01T01:02:03Z.45x6Z"), None);
    assert_eq!(parse_epoch_string("2018-12-01 16:22:19"), None);
    assert_eq!(parse_epoch_string("2018-12-01 16:22:19 XYZ"), None);
    assert_eq!(parse_epoch_string("2018-12-01T16:22:19"), None);
    assert_eq!(parse_epoch_string("2018-12-1"), None);
    assert_eq!(parse_epoch_string(""), None);
    assert_eq!(parse_epoch_string("2018-12-20\n"), None);
}

#[test]
fn epoch_string_unreadable_digits() {
    assert!(epoch_string_panics("2018-12-20T16:22:19.1234567890Z"));
    assert!(epoch_string_panics("\u{0662}018-12-20"));
    assert!(epoch_string_panics("2018-12-01 16:22:19.1234567891 GPS"));
    assert!(epoch_string_panics("2018-12-20T16:22:19Z.1234567890Z"));
    assert!(!epoch_string_panics("2018-12-20T16:22:19.123456789Z"));
    assert!(!epoch_string_panics("nonsense"));
}

#[test]
fn time_system_names() {
    for ts in [TimeSystem::GPS, TimeSystem::TAI, TimeSystem::TT, TimeSystem::UTC, TimeSystem::UT1] {
        assert_eq!(string_to_time_system(&time_system_to_string(ts)), Ok(ts));
        assert_eq!(str_to_time_system(&ts.to_string()), Ok(ts));
    }
    assert_eq!(TimeSystem::GPS.to_string(), "GPS");
    assert_eq!(string_to_time_system("gps"), Err(String::from("Unknown time system string \"gps\"")));
    assert_eq!(str_to_time_system("X"), Err(String::from("Unkown time system string \"X\"")));
}

#[test]
fn ellipsoidal_conversion_types_differ() {
    assert_ne!(EllipsoidalConversionType::Geocentric, EllipsoidalConversionType::Geodetic);
    assert_eq!(EllipsoidalConversionType::Geodetic, EllipsoidalConversionType::Geodetic.clone());
}

#[test]
fn gps_nanoseconds_split() {
    assert_eq!(split_gps_nanoseconds(0), (0, 0));
    assert_eq!(split_gps_nanoseconds(1_000_000_000), (1, 0));
    assert_eq!(split_gps_nanoseconds(1_500_000_001), (1, 500_000_001));
    assert_eq!(split_gps_nanoseconds(500), (0, 500));
    assert_eq!(split_gps_nanoseconds(999_999_999), (0, 999_999_999));
    assert_eq!(split_gps_nanoseconds(u64::MAX), (18_446_744_073, 709_551_615));
}
