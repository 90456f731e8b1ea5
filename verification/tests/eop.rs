use rastro::eop::{
    eop_c04_from_lines, eop_extrapolation_to_string, eop_standard_eop_from_lines,
    eop_type_to_string, parse_c04_line, parse_standard_eop_line, string_to_eop_extrapolation,
    string_to_eop_type, c04_lines_panic, standard_lines_panic, EOPExtrapolation, EOPType,
    EopField, EopFileError, EopLineError, EopLookup, EopQuantity, EopRecord, EopTable,
    decimal_string, error_is_quotable, file_line_error_message, line_error_message,
};
use rastro::text::NumberError;

const AS2RAD: f64 = std::f64::consts::PI / 180.0 / 3600.0;

fn val(t: &[u8]) -> f64 {
    std::str::from_utf8(t).unwrap().parse::<f64>().unwrap()
}

fn opt(t: &Option<Vec<u8>>) -> Option<f64> {
    t.as_ref().map(|v| val(v))
}

/// The record as the float tuple `(mjd, pm_x, pm_y, ut1_utc, dX, dY, lod)` in radians and seconds.
fn as_tuple(r: &EopRecord) -> (u32, f64, f64, f64, Option<f64>, Option<f64>, Option<f64>) {
    (
        r.mjd,
        val(&r.pm_x) * AS2RAD,
        val(&r.pm_y) * AS2RAD,
        val(&r.ut1_utc),
        opt(&r.dx).map(|x| x * AS2RAD),
        opt(&r.dy).map(|x| x * AS2RAD),
        opt(&r.lod),
    )
}

#[test]
fn eop_test_parse_c04_line() {
    let good_str = "2021  11  23  59541   0.129614   0.247350  -0.1067281  -0.0005456   0\
    .000265  -0.000031   0.000026   0.000019  0.0000079  0.0000069    0.000055    0.000044";
    assert_eq!(
        (59541, 0.129614 * AS2RAD, 0.247350 * AS2RAD, -0.1067281,
         Some(0.000265 * AS2RAD), Some(-0.000031 * AS2RAD), Some(-0.0005456)),
        as_tuple(&parse_c04_line(good_str).unwrap())
    );

    let bad_str = "2021  11  23  59541   0.abc614   0.247350  -0.1067281  -0.0005456   0\
    .000265  -0.000031   0.000026   0.000019  0.0000079  0.0000069    0.000055    0.000044";
    assert_eq!(parse_c04_line(bad_str).is_err(), true);
}

#[test]
fn eop_test_parse_standard_eop_line_bulletin_a() {
    let good_str = "741231 42412.00 I -0.043558 0.029749  0.265338 0.028736  I-0.2891063 0.0002710  2.9374 0.1916  P    -0.259    0.199    -0.869    0.300  -.039000   .281000  -.2908000   -16.159    -1.585";
    assert_eq!(
        (42412, -0.043558 * AS2RAD, 0.265338 * AS2RAD, -0.2891063,
         Some(-0.259 * AS2RAD), Some(-0.869 * AS2RAD), Some(2.9374)),
        as_tuple(&parse_standard_eop_line(good_str, EOPType::StandardBulletinA).unwrap())
    );

    let no_lod_str = "22 224 59634.00 P  0.012311 0.006394  0.360715 0.008161  P-0.1074307 0\
    .0063266                 P     0.195    0.128     0.056    0.160                                                     ";
    assert_eq!(
        (59634, 0.012311 * AS2RAD, 0.360715 * AS2RAD, -0.1074307,
         Some(0.195 * AS2RAD), Some(0.056 * AS2RAD), None),
        as_tuple(&parse_standard_eop_line(no_lod_str, EOPType::StandardBulletinA).unwrap())
    );

    let min_str = "22 327 59665.00 P  0.028851 0.008032  0.417221 0.010886  P-0.1127678 0\
    .0087497                                                                                                             ";
    assert_eq!(
        (59665, 0.028851 * AS2RAD, 0.417221 * AS2RAD, -0.1127678, None, None, None),
        as_tuple(&parse_standard_eop_line(min_str, EOPType::StandardBulletinA).unwrap())
    );

    let bad_str = "75 1 1 42413.00 I -0.043k02 0.024593  0.265903 0.023470  I 0.7078620 0\
    .0002710  3.1173 0.1916  P    -0.267    0.199    -0.880    0.300  -.039000   .281000   \
    .7065000   -16.126    -1.815";
    assert_eq!(parse_standard_eop_line(bad_str, EOPType::StandardBulletinA).is_err(), true);

    assert_ne!(
        (42413, -0.043802 * AS2RAD, 0.265903 * AS2RAD, 0.7078620,
         Some(-0.267 * AS2RAD), Some(-0.880 * AS2RAD), Some(3.1173)),
        as_tuple(&parse_standard_eop_line(good_str, EOPType::StandardBulletinB).unwrap())
    );
}

#[test]
fn eop_test_parse_standard_eop_line_bulletin_b() {
    let good_str = "741231 42412.00 I -0.043558 0.029749  0.265338 0.028736  I-0.2891063 0.0002710  2.9374 0.1916  P    -0.259    0.199    -0.869    0.300  -.039000   .281000  -.2908000   -16.159    -1.585";
    assert_eq!(
        (42412, -0.039000 * AS2RAD, 0.281000 * AS2RAD, -0.2908000,
         Some(-16.159 * AS2RAD), Some(-1.585 * AS2RAD), Some(0.0)),
        as_tuple(&parse_standard_eop_line(good_str, EOPType::StandardBulletinB).unwrap())
    );

    let bad_str = "75 1 1 42413.00 I -0.043002 0.024593  0.265903 0.023470  I 0.7078620 0\
    .0002710  3.1173 0.1916  P    -0.267    0.199    -0.880    0.300  -.039000   .281000   \
    .7065000   -16.126    -1.81c";
    assert_eq!(parse_standard_eop_line(bad_str, EOPType::StandardBulletinB).is_err(), true);

    assert_ne!(
        (42412, -0.039000 * AS2RAD, 0.281000 * AS2RAD, -0.2908000,
         Some(-16.159 * AS2RAD), Some(-1.585 * AS2RAD), Some(0.0)),
        as_tuple(&parse_standard_eop_line(good_str, EOPType::StandardBulletinA).unwrap())
    );
}

fn c04_line(mjd: u32) -> String {
    format!(
        "2021  11  23  {:5}   0.129614   0.247350  -0.1067281  -0.0005456   0.000265  -0.000031   0.000026",
        mjd
    )
}

fn c04_file(data: &[String]) -> Vec<Option<String>> {
    let mut lines: Vec<Option<String>> = (0..14).map(|i| Some(format!("header {}", i))).collect();
    for d in data {
        lines.push(Some(d.clone()));
    }
    lines
}

#[test]
fn eop_c04_table_from_lines() {
    let lines = c04_file(&[c04_line(59540), c04_line(59541), c04_line(59542)]);
    assert!(!c04_lines_panic(&lines));
    let t = eop_c04_from_lines(&lines, EOPExtrapolation::Hold, true).unwrap();
    assert_eq!(t.eop_type, EOPType::C04);
    assert_eq!(t.data.len(), 3);
    assert_eq!(t.mjd_min, 59540);
    assert_eq!(t.mjd_max, 59542);
    assert_eq!(t.mjd_last_lod, 59542);
    assert_eq!(t.mjd_last_dxdy, 59542);
    assert_eq!(t.extrapolate, EOPExtrapolation::Hold);
    assert_eq!(t.interpolate, true);
    assert_eq!(t.data[&59541].ut1_utc, b"-0.1067281".to_vec());
    assert_eq!(t.data[&59541].lod, Some(b"-0.0005456".to_vec()));
}

#[test]
fn eop_c04_header_lines_are_skipped() {
    let mut lines = c04_file(&[c04_line(59540)]);
    lines[3] = None;
    lines[5] = Some(String::from("x"));
    let t = eop_c04_from_lines(&lines, EOPExtrapolation::Zero, false).unwrap();
    assert_eq!(t.len(), 1);
    assert_eq!(t.mjd_min, 59540);
}

#[test]
fn eop_c04_bad_line_stops_loading() {
    let bad = c04_line(59541).replace("0.247350", "0.24x350");
    let lines = c04_file(&[c04_line(59540), bad, c04_line(59542)]);
    let e = eop_c04_from_lines(&lines, EOPExtrapolation::Hold, true).err().unwrap();
    assert_eq!(
        e,
        EopFileError::Line {
            lineno: 15,
            error: EopLineError::Field {
                field: EopField::PmY,
                start: 30,
                end: 41,
                cause: NumberError::FloatInvalid
            }
        }
    );

    let mut lines = c04_file(&[c04_line(59540), c04_line(59541)]);
    lines.insert(15, None);
    let e = eop_c04_from_lines(&lines, EOPExtrapolation::Hold, true).err().unwrap();
    assert_eq!(e, EopFileError::Read { lineno: 15 });
}

#[test]
fn eop_c04_short_line_aborts() {
    let lines = c04_file(&[c04_line(59540), String::from("2021  11  23  59541   0.12")]);
    assert!(c04_lines_panic(&lines));
    // A short line after a rejected one is never reached.
    let lines = c04_file(&[String::from("2021  11  23  5954x   0.129614   0.247350"), String::new()]);
    assert!(!c04_lines_panic(&lines));
    assert!(eop_c04_from_lines(&lines, EOPExtrapolation::Hold, true).is_err());
}

#[test]
fn eop_c04_field_errors() {
    let line = c04_line(59541);
    let bad_mjd = format!("{}{}{}", &line[..14], "59a41", &line[19..]);
    assert_eq!(
        parse_c04_line(&bad_mjd).err().unwrap(),
        EopLineError::Field { field: EopField::Mjd, start: 12, end: 19, cause: NumberError::IntInvalidDigit }
    );
    let big_mjd = format!("{}{}{}", &line[..12], "9999999", &line[19..]);
    assert_eq!(parse_c04_line(&big_mjd).unwrap().mjd, 9999999);
    let empty_dy = format!("{}{}", &line[..76], "           ");
    assert_eq!(
        parse_c04_line(&empty_dy).err().unwrap(),
        EopLineError::Field { field: EopField::DY, start: 76, end: 87, cause: NumberError::FloatEmpty }
    );
    let neg_mjd = format!("{}{}{}", &line[..12], "  -5954", &line[19..]);
    assert_eq!(
        parse_c04_line(&neg_mjd).err().unwrap(),
        EopLineError::Field { field: EopField::Mjd, start: 12, end: 19, cause: NumberError::IntInvalidDigit }
    );
    let blank_mjd = format!("{}{}{}", &line[..12], "       ", &line[19..]);
    assert_eq!(
        parse_c04_line(&blank_mjd).err().unwrap(),
        EopLineError::Field { field: EopField::Mjd, start: 12, end: 19, cause: NumberError::IntEmpty }
    );
    let plus_mjd = format!("{}{}{}", &line[..12], "  +5954", &line[19..]);
    assert_eq!(parse_c04_line(&plus_mjd).unwrap().mjd, 5954);
}

#[test]
fn eop_float_literal_forms() {
    let line = c04_line(59541);
    for (text, ok) in [
        ("  1.5e-3  ", true),
        ("  -.5     ", true),
        ("  5.      ", true),
        ("  INF     ", true),
        ("  +nan    ", true),
        ("  infinity", true),
        ("  .       ", false),
        ("  1e      ", false),
        ("  1.2.3   ", false),
        ("  e5      ", false),
    ] {
        let l = format!("{}{} {}", &line[..19], text, &line[30..]);
        assert_eq!(parse_c04_line(&l).is_ok(), ok, "{}", text);
    }
}

#[test]
fn eop_unicode_whitespace_is_trimmed() {
    let line = c04_line(59541);
    // A no-break space (two bytes) then a nine-byte value fills the 11-byte pm_x column.
    let l = format!("{}\u{a0}0.1296145{}", &line[..19], &line[30..]);
    let r = parse_c04_line(&l).unwrap();
    assert_eq!(r.pm_x, b"0.1296145".to_vec());
}

fn standard_line(mjd: u32, with_lod: bool) -> String {
    let lod = if with_lod { "  2.9374 0.1916  " } else { "                 " };
    format!(
        "741231 {}.00 I -0.043558 0.029749  0.265338 0.028736  I-0.2891063 0.0002710{}P    -0.259    0.199    -0.869    0.300  -.039000   .281000  -.2908000   -16.159    -1.585",
        mjd, lod
    )
}

#[test]
fn eop_standard_table_from_lines() {
    let lines: Vec<Option<String>> = vec![
        Some(standard_line(42412, true)),
        Some(String::from("short")),
        Some(standard_line(42413, true)),
        Some(standard_line(42414, false)),
        Some(String::new()),
    ];
    assert!(!standard_lines_panic(&lines, EOPType::StandardBulletinA));
    let a = eop_standard_eop_from_lines(&lines, EOPExtrapolation::Hold, true, EOPType::StandardBulletinA).unwrap();
    assert_eq!(a.data.len(), 3);
    assert_eq!(a.mjd_min, 42412);
    assert_eq!(a.mjd_max, 42414);
    assert_eq!(a.mjd_last_lod, 42413);
    assert_eq!(a.mjd_last_dxdy, 42414);
    assert_eq!(a.data[&42414].lod, None);

    let b = eop_standard_eop_from_lines(&lines, EOPExtrapolation::Zero, false, EOPType::StandardBulletinB).unwrap();
    assert_eq!(b.data.len(), 3);
    assert_eq!(b.mjd_last_lod, 0);
    assert_eq!(b.mjd_last_dxdy, b.mjd_max);
    assert_eq!(b.data[&42412].lod, Some(b"0.0".to_vec()));

    let c = eop_standard_eop_from_lines(&lines, EOPExtrapolation::Zero, false, EOPType::C04).unwrap();
    assert_eq!(c.data.len(), 0);
    assert_eq!(c.mjd_max, 0);

    let mut unreadable = lines.clone();
    unreadable[2] = None;
    assert_eq!(
        eop_standard_eop_from_lines(&unreadable, EOPExtrapolation::Zero, false, EOPType::StandardBulletinA).err(),
        Some(EopFileError::Read { lineno: 2 })
    );
}

#[test]
fn eop_standard_line_errors() {
    assert_eq!(parse_standard_eop_line("too short", EOPType::StandardBulletinA).err(), Some(EopLineError::TooShort));
    let good = standard_line(42412, true);
    assert_eq!(
        parse_standard_eop_line(&good, EOPType::C04).err(),
        Some(EopLineError::InvalidType { eop_type: EOPType::C04 })
    );
    assert_eq!(
        parse_standard_eop_line(&good, EOPType::Static).err(),
        Some(EopLineError::InvalidType { eop_type: EOPType::Static })
    );
    let bad_pmx = good.replace("-0.043558", "-0.043k58");
    assert_eq!(
        parse_standard_eop_line(&bad_pmx, EOPType::StandardBulletinA).err(),
        Some(EopLineError::Field { field: EopField::PmX, start: 18, end: 27, cause: NumberError::FloatInvalid })
    );
    // Bulletin B needs the columns up to byte 185.
    let cut = String::from(&good[..150]);
    assert!(standard_lines_panic(&vec![Some(cut)], EOPType::StandardBulletinB));
}

#[test]
fn eop_names() {
    for e in [EOPExtrapolation::Zero, EOPExtrapolation::Hold, EOPExtrapolation::Error] {
        assert_eq!(string_to_eop_extrapolation(&eop_extrapolation_to_string(e)), Ok(e));
    }
    for t in [EOPType::C04, EOPType::StandardBulletinA, EOPType::StandardBulletinB, EOPType::Static] {
        assert_eq!(string_to_eop_type(&eop_type_to_string(t)), Ok(t));
    }
    assert_eq!(
        string_to_eop_extrapolation("hold"),
        Err(String::from("Unknown EOP Extrapolation string \"hold\""))
    );
    assert_eq!(string_to_eop_type("Static"), Ok(EOPType::Static));
    assert_eq!(string_to_eop_type("static"), Err(String::from("Unknown EOP Type string \"static\"")));
    assert_eq!(EOPType::Static.to_string(), "Static");
    assert_eq!(EOPExtrapolation::Hold.to_string(), "EOPExtrapolation::Hold");
    assert_eq!(EOPType::StandardBulletinA.to_string(), "Bulletin A");
    assert_eq!(EOPType::C04.to_string(), "C04");
    assert_eq!(eop_type_to_string(EOPType::StandardBulletinB), "StandardBulletinB");
}

#[test]
fn eop_lookup_sources() {
    let lines = vec![
        Some(standard_line(42412, true)),
        Some(standard_line(42413, true)),
        Some(standard_line(42414, false)),
    ];
    let mut t = eop_standard_eop_from_lines(&lines, EOPExtrapolation::Hold, true, EOPType::StandardBulletinA).unwrap();
    assert_eq!(t.limit(EopQuantity::Ut1Utc), 42414);
    assert_eq!(t.limit(EopQuantity::Lod), 42413);
    assert!(!t.lookup_would_panic(EopQuantity::Ut1Utc, 42412, false));
    match t.lookup(EopQuantity::Ut1Utc, 42412, false) {
        EopLookup::Interpolate(a, b) => {
            assert_eq!(a.mjd, 42412);
            assert_eq!(b.mjd, 42413);
        }
        _ => panic!("expected interpolation"),
    }
    // At the last LOD date the record of that date is used.
    assert!(!t.lookup_would_panic(EopQuantity::Lod, 42413, false));
    match t.lookup(EopQuantity::Lod, 42413, false) {
        EopLookup::Prior(r) => assert_eq!(r.mjd, 42413),
        _ => panic!("expected the record of the last date"),
    }
    // The record after the last LOD date has no LOD.
    assert!(t.lookup_would_panic(EopQuantity::Lod, 42414, false));
    match t.lookup(EopQuantity::Lod, 42500, true) {
        EopLookup::Hold(r) => assert_eq!(r.mjd, 42413),
        _ => panic!("expected hold"),
    }
    t.interpolate = false;
    match t.lookup(EopQuantity::PolarMotion, 42414, false) {
        EopLookup::Prior(r) => assert_eq!(r.mjd, 42414),
        _ => panic!("expected prior"),
    }
    assert!(t.lookup_would_panic(EopQuantity::PolarMotion, 42415, false));
    t.extrapolate = EOPExtrapolation::Zero;
    assert!(matches!(t.lookup(EopQuantity::DxDy, 50000, true), EopLookup::Zero));
    t.interpolate = true;
    // The last date is not beyond the data: its record is used, not zero.
    match t.lookup(EopQuantity::Ut1Utc, 42414, false) {
        EopLookup::Prior(r) => assert_eq!(r.mjd, 42414),
        _ => panic!("expected the record of the last date"),
    }
    t.extrapolate = EOPExtrapolation::Error;
    assert!(!t.lookup_would_panic(EopQuantity::DxDy, 50000, true));
    assert!(matches!(t.lookup(EopQuantity::DxDy, 50000, true), EopLookup::Abort));
}

#[test]
fn eop_bulletin_b_lod_held_as_zero() {
    let lines = vec![Some(standard_line(42412, true)), Some(standard_line(42413, true))];
    let t = eop_standard_eop_from_lines(&lines, EOPExtrapolation::Hold, true, EOPType::StandardBulletinB).unwrap();
    assert_eq!(t.mjd_last_lod, 0);
    assert_eq!(t.mjd_last_dxdy, t.mjd_max);
    assert!(!t.lookup_would_panic(EopQuantity::Lod, 42412, true));
    assert!(matches!(t.lookup(EopQuantity::Lod, 42412, true), EopLookup::Zero));
    match t.lookup(EopQuantity::DxDy, 42500, true) {
        EopLookup::Hold(r) => assert_eq!(r.mjd, 42413),
        _ => panic!("expected hold"),
    }
}

#[test]
fn eop_table_dates_ignore_line_order() {
    let lines = vec![
        Some(standard_line(50001, true)),
        Some(standard_line(50003, false)),
        Some(standard_line(50000, true)),
        Some(standard_line(50002, true)),
        Some(standard_line(50002, false)),
    ];
    let t = eop_standard_eop_from_lines(&lines, EOPExtrapolation::Hold, false, EOPType::StandardBulletinA).unwrap();
    assert_eq!(t.len(), 4);
    assert_eq!(t.mjd_min, 50000);
    assert_eq!(t.mjd_max, 50003);
    // 50002 was last read without LOD, so the largest date with LOD is 50001.
    assert_eq!(t.mjd_last_lod, 50001);
    assert_eq!(t.mjd_last_dxdy, 50003);

    let c = c04_file(&[c04_line(59542), c04_line(59540), c04_line(59541)]);
    let t = eop_c04_from_lines(&c, EOPExtrapolation::Hold, true).unwrap();
    assert_eq!((t.mjd_min, t.mjd_max, t.mjd_last_lod, t.mjd_last_dxdy), (59540, 59542, 59542, 59542));
}

#[test]
fn eop_static_table_every_date() {
    let t = EopTable::from_static_values(
        b"0.0349282".to_vec(),
        b"0.4833163".to_vec(),
        b"-0.072073685".to_vec(),
        b"1.75e-7".to_vec(),
        b"-2.259e-7".to_vec(),
        b"0.0".to_vec(),
    );
    assert_eq!(t.eop_type, EOPType::Static);
    assert_eq!(t.extrapolate, EOPExtrapolation::Hold);
    assert!(!t.interpolate);
    assert_eq!((t.mjd_min, t.mjd_max, t.mjd_last_lod, t.mjd_last_dxdy), (0, 0, 0, 0));
    assert_eq!(t.len(), 1);
    for q in [EopQuantity::PolarMotion, EopQuantity::Ut1Utc, EopQuantity::DxDy, EopQuantity::Lod] {
        for day in [0u32, 1, 54195, u32::MAX] {
            assert!(!t.lookup_would_panic(q, day, true));
            match t.lookup(q, day, true) {
                EopLookup::Hold(r) => {
                    assert_eq!(r.mjd, 0);
                    assert_eq!(r.ut1_utc, b"-0.072073685".to_vec());
                    assert_eq!(r.dy, Some(b"-2.259e-7".to_vec()));
                }
                _ => panic!("expected hold"),
            }
        }
        match t.lookup(q, 0, false) {
            EopLookup::Prior(r) => assert_eq!(r.pm_x, b"0.0349282".to_vec()),
            _ => panic!("expected prior"),
        }
    }
}

#[test]
fn eop_zero_table() {
    let t = EopTable::from_zero();
    assert_eq!(t.eop_type, EOPType::Static);
    let r = &t.data[&0];
    assert_eq!(as_tuple(r), (0, 0.0, 0.0, 0.0, Some(0.0), Some(0.0), Some(0.0)));
    assert!(matches!(t.lookup(EopQuantity::Lod, 60000, true), EopLookup::Hold(_)));
}

#[test]
fn eop_loaded_table_keeps_last_record_of_a_date() {
    let lines: Vec<Option<String>> = vec![
        Some(standard_line(42412, true)),
        Some(standard_line(42413, true)),
        Some(standard_line(42413, false)),
    ];
    let t = eop_standard_eop_from_lines(&lines, EOPExtrapolation::Hold, false, EOPType::StandardBulletinA).unwrap();
    assert_eq!(t.len(), 2);
    let first = parse_standard_eop_line(lines[0].as_ref().unwrap(), EOPType::StandardBulletinA).unwrap();
    assert_eq!(as_tuple(&t.data[&42412]), as_tuple(&first));
    assert_eq!(t.data[&42413].lod, None);
    assert_eq!(t.data[&42413].ut1_utc, b"-0.2891063".to_vec());
}

#[test]
fn eop_error_messages() {
    let bad = c04_line(59541).replace("0.247350", "0.24x350");
    let e = parse_c04_line(&bad).err().unwrap();
    assert!(error_is_quotable(&bad, e));
    assert_eq!(
        line_error_message(&bad, e),
        format!("Failed to parse pm_y from '{}': invalid float literal", &bad[30..41])
    );
    assert_eq!(
        file_line_error_message(15, &bad, e),
        format!("Failed to parse EOP file on line 15: Failed to parse pm_y from '{}': invalid float literal", &bad[30..41])
    );
    let mjd_bad = c04_line(59541).replace("59541", "5954a");
    let e = parse_c04_line(&mjd_bad).err().unwrap();
    assert_eq!(
        line_error_message(&mjd_bad, e),
        format!("Failed to parse mjd from '{}': invalid digit found in string", &mjd_bad[12..19])
    );
    assert_eq!(
        line_error_message("", EopLineError::InvalidType { eop_type: EOPType::Static }),
        "Invalid EOPType for standard parsing: Static"
    );
    assert_eq!(line_error_message("x", EopLineError::TooShort), "Unable to parse line. Line too short.");
    let far = EopLineError::Field { field: EopField::DY, start: 3, end: 40, cause: NumberError::FloatEmpty };
    assert!(!error_is_quotable("short", far));
    assert_eq!(decimal_string(0), "0");
    assert_eq!(decimal_string(9), "9");
    assert_eq!(decimal_string(10), "10");
    assert_eq!(decimal_string(1234567), "1234567");
}
