use connector_utils::double::Double;
use connector_utils::json::{Number, Object, Value};
use connector_utils::parse_timestamp;
use connector_utils::timestamp::{
    date_of_readings, parse_date, timestamp_of_integer, timestamp_of_number, timestamp_of_readings,
};

fn read_double(s: &str) -> Option<u64> {
    s.parse::<f64>().ok().map(f64::to_bits)
}

fn timestamp(val: &Value) -> Option<i64> {
    parse_timestamp(val, read_double)
}

fn integer(n: i64) -> Value {
    if n < 0 {
        Value::Number(Number::Negative(n))
    } else {
        Value::Number(Number::Unsigned(n as u64))
    }
}

fn float(f: f64) -> Value {
    Value::Number(Number::Float(f.to_bits()))
}

fn text(s: &str) -> Value {
    Value::String(s.to_string())
}

#[test]
fn parse_timestamp_i64_milliseconds() {
    let val = integer(1_700_000_000_000_i64);
    assert_eq!(timestamp(&val), Some(1_700_000_000_000));
}

#[test]
fn parse_timestamp_i64_seconds() {
    let val = integer(1_700_000_000_i64);
    assert_eq!(timestamp(&val), Some(1_700_000_000_000));
}

#[test]
fn parse_timestamp_numeric_string_seconds() {
    let val = text("1700000000");
    assert_eq!(timestamp(&val), Some(1_700_000_000_000));
}

#[test]
fn parse_timestamp_numeric_string_millis() {
    let val = text("1700000000000");
    assert_eq!(timestamp(&val), Some(1_700_000_000_000));
}

#[test]
fn parse_timestamp_iso8601_with_fractional() {
    let val = text("2025-11-12T18:31:32.217Z");
    let ts = timestamp(&val).unwrap();
    assert!(ts > 0);
    let expected = chrono::DateTime::parse_from_rfc3339("2025-11-12T18:31:32.217Z")
        .unwrap()
        .timestamp_millis();
    assert_eq!(ts, expected);
}

#[test]
fn parse_timestamp_iso8601_without_fractional() {
    let val = text("2025-11-12T18:31:32Z");
    let ts = timestamp(&val).unwrap();
    assert!(ts > 0);
}

#[test]
fn parse_timestamp_rfc3339_with_offset() {
    let val = text("2025-11-12T18:31:32+00:00");
    assert!(timestamp(&val).is_some());
}

#[test]
fn parse_timestamp_null_returns_none() {
    let val = Value::Null;
    assert_eq!(timestamp(&val), None);
}

#[test]
fn parse_timestamp_invalid_string_returns_none() {
    let val = text("not-a-timestamp");
    assert_eq!(timestamp(&val), None);
}

#[test]
fn parse_timestamp_empty_string_returns_none() {
    let val = text("");
    assert_eq!(timestamp(&val), None);
}

#[test]
fn parse_timestamp_object_returns_none() {
    let val = Value::Object(Object::new().with("time".to_string(), integer(123)));
    assert_eq!(timestamp(&val), None);
}

#[test]
fn parse_timestamp_negative_i64() {
    let val = integer(-1000);
    assert_eq!(timestamp(&val), Some(-1000));
}

#[test]
fn parse_timestamp_zero() {
    let val = integer(0);
    assert_eq!(timestamp(&val), Some(0));
}

#[test]
fn booleans_and_arrays_hold_no_timestamp() {
    assert_eq!(timestamp(&Value::Bool(true)), None);
    assert_eq!(timestamp(&Value::Array(vec![integer(1_700_000_000)])), None);
}

#[test]
fn unit_changes_at_a_hundred_billion() {
    assert_eq!(timestamp_of_integer(99_999_999_999), 99_999_999_999_000);
    assert_eq!(timestamp_of_integer(100_000_000_000), 100_000_000_000);
    assert_eq!(timestamp_of_integer(-1), -1);
    assert_eq!(timestamp_of_integer(i64::MIN), i64::MIN);
    assert_eq!(timestamp_of_integer(i64::MAX), i64::MAX);
}

#[test]
fn fractional_seconds_become_millis() {
    assert_eq!(timestamp(&float(1_700_000_000.5)), Some(1_700_000_000_500));
    assert_eq!(timestamp(&float(1_700_000_000.123)), Some(1_700_000_000_123));
    assert_eq!(timestamp(&text("1700000000.5")), Some(1_700_000_000_500));
    assert_eq!(timestamp(&text("1.7e9")), Some(1_700_000_000_000));
}

#[test]
fn fractional_millis_are_rounded() {
    assert_eq!(timestamp(&float(1_700_000_000_000.5)), Some(1_700_000_000_001));
    assert_eq!(timestamp(&float(1_700_000_000_000.25)), Some(1_700_000_000_000));
    assert_eq!(timestamp(&text("-1.5")), Some(-2));
    assert_eq!(timestamp(&text("-0.25")), Some(0));
    assert_eq!(timestamp(&text("-0.0")), Some(0));
}

#[test]
fn json_doubles_have_to_be_positive() {
    assert_eq!(timestamp(&float(0.0)), None);
    assert_eq!(timestamp(&float(-0.0)), None);
    assert_eq!(timestamp(&float(-1.5)), None);
    assert_eq!(timestamp(&text("0.0")), Some(0));
}

#[test]
fn doubles_beyond_the_range_saturate() {
    assert_eq!(timestamp(&float(1e300)), Some(i64::MAX));
    assert_eq!(timestamp(&text("-1e300")), Some(i64::MIN));
    assert_eq!(timestamp_of_number(&Number::Unsigned(u64::MAX)), Some(i64::MAX));
    assert_eq!(timestamp_of_number(&Number::Unsigned(1 << 63)), Some(i64::MAX));
}

#[test]
fn infinities_and_nan_hold_no_timestamp() {
    assert_eq!(timestamp(&text("inf")), None);
    assert_eq!(timestamp(&text("-infinity")), None);
    assert_eq!(timestamp(&text("NaN")), None);
    assert_eq!(timestamp(&text("1e999")), None);
    assert_eq!(timestamp(&float(f64::INFINITY)), None);
    assert_eq!(timestamp(&float(f64::NAN)), None);
}

#[test]
fn integer_texts_may_have_a_sign_and_nothing_else() {
    assert_eq!(timestamp_of_readings(Some(7), None, None), Some(7000));
    assert_eq!(parse_timestamp(&text("+7"), |_| None), Some(7000));
    assert_eq!(parse_timestamp(&text("-7"), |_| None), Some(-7));
    assert_eq!(parse_timestamp(&text("007"), |_| None), Some(7000));
    assert_eq!(parse_timestamp(&text("-"), |_| None), None);
    assert_eq!(parse_timestamp(&text("+"), |_| None), None);
    assert_eq!(parse_timestamp(&text(" 7"), |_| None), None);
    assert_eq!(parse_timestamp(&text("7 "), |_| None), None);
    assert_eq!(parse_timestamp(&text("1_000"), |_| None), None);
    assert_eq!(parse_timestamp(&text("9223372036854775807"), |_| None), Some(i64::MAX));
    assert_eq!(parse_timestamp(&text("-9223372036854775808"), |_| None), Some(i64::MIN));
    assert_eq!(parse_timestamp(&text("9223372036854775808"), |_| None), None);
    assert_eq!(timestamp(&text("9223372036854775808")), Some(i64::MAX));
}

#[test]
fn doubles_are_asked_of_texts_that_are_no_integers() {
    assert_eq!(parse_timestamp(&text("7"), |_| panic!("an integer")), Some(7000));
    assert_eq!(parse_timestamp(&integer(7), |_| panic!("a number")), Some(7000));
    let half = |s: &str| if s == "x" { Some(0.5_f64.to_bits()) } else { None };
    assert_eq!(parse_timestamp(&text("x"), half), Some(500));
}

#[test]
fn dates_are_read_in_three_notations() {
    assert_eq!(parse_date("2025-11-12T18:31:32.217Z"), Some(1_762_972_292_217));
    assert_eq!(parse_date("2025-11-12T18:31:32Z"), Some(1_762_972_292_000));
    assert_eq!(parse_date("2025-11-12T19:31:32+01:00"), Some(1_762_972_292_000));
    assert_eq!(parse_date("1970-01-01T00:00:00Z"), Some(0));
    assert_eq!(parse_date("1969-12-31T23:59:59.5Z"), Some(-500));
    assert_eq!(parse_date("2025-11-12T18:31:32"), None);
    assert_eq!(parse_date("2025-13-12T18:31:32Z"), None);
}

#[test]
fn dates_that_only_the_utc_formats_accept() {
    assert_eq!(parse_date("2025-1-2T3:4:5Z"), Some(1_735_787_045_000));
    assert_eq!(parse_date("2025-1-2T3:4:5.25Z"), Some(1_735_787_045_250));
    assert_eq!(timestamp(&text("2025-1-2T3:4:5.25Z")), Some(1_735_787_045_250));
}

#[test]
fn first_reading_of_a_date_wins() {
    assert_eq!(date_of_readings(Some(1), Some(2), Some(3)), Some(1));
    assert_eq!(date_of_readings(None, Some(2), Some(3)), Some(2));
    assert_eq!(date_of_readings(None, None, Some(3)), Some(3));
    assert_eq!(date_of_readings(None, None, None), None);
}

#[test]
fn numbers_precede_dates() {
    let half = Some(0.5_f64.to_bits());
    assert_eq!(timestamp_of_readings(Some(1), half, Some(5)), Some(1000));
    assert_eq!(timestamp_of_readings(None, half, Some(5)), Some(500));
    assert_eq!(timestamp_of_readings(None, Some(f64::NAN.to_bits()), Some(5)), None);
    assert_eq!(timestamp_of_readings(None, None, Some(5)), Some(5));
    assert_eq!(timestamp_of_readings(None, None, None), None);
}

#[test]
fn whole_doubles_read_as_integers() {
    for n in [0_i64, 1, 7, 1_700_000_000, 99_999_999_999, 100_000_000_000, 1_700_000_000_000] {
        let from_double = timestamp_of_readings(None, Some((n as f64).to_bits()), None);
        assert_eq!(from_double, Some(timestamp_of_integer(n)));
        assert_eq!(timestamp(&text(&format!("{n}"))), timestamp(&integer(n)));
    }
}

#[test]
fn reading_a_timestamp_again() {
    for n in [0_i64, -5, 100_000_000, 1_700_000_000, 1_700_000_000_000] {
        let once = timestamp_of_integer(n);
        assert_eq!(timestamp_of_integer(once), once);
    }
    assert_eq!(timestamp_of_integer(timestamp_of_integer(1)), 1_000_000);
}

#[test]
fn order_is_kept_within_a_unit() {
    assert!(timestamp_of_integer(1_700_000_000) < timestamp_of_integer(1_700_000_001));
    assert!(timestamp_of_integer(1_700_000_000_000) < timestamp_of_integer(1_700_000_000_001));
    assert!(timestamp_of_integer(99_999_999_999) > timestamp_of_integer(100_000_000_000));
}

fn native(f: f64) -> Option<i64> {
    if !f.is_finite() {
        return None;
    }
    Some(if (0.0..100_000_000_000.0).contains(&f) {
        (f * 1000.0).round() as i64
    } else {
        f.round() as i64
    })
}

#[test]
fn doubles_agree_with_the_machine() {
    let mut state: u64 = 0x9e37_79b9_7f4a_7c15;
    for i in 0..200_000_u64 {
        state ^= state << 13;
        state ^= state >> 7;
        state ^= state << 17;
        // Any bit pattern at all, and values around the range of timestamps.
        let bits = if i % 2 == 0 {
            state
        } else {
            (state & 0x800f_ffff_ffff_ffff) | ((1023 - 12 + i % 80) << 52)
        };
        let expected = native(f64::from_bits(bits));
        assert_eq!(timestamp_of_readings(None, Some(bits), None), expected, "{bits:#x}");
    }
    for f in [0.0005, 0.0015, 0.0025, 0.4999999999999999, 5e-324, f64::MIN_POSITIVE, f64::MAX] {
        assert_eq!(timestamp_of_readings(None, Some(f.to_bits()), None), native(f));
    }
}

#[test]
fn whole_numbers_are_rounded_to_the_nearest_double() {
    for n in [0_u64, 1, (1 << 53) - 1, (1 << 53) + 1, (1 << 53) + 3, (1 << 62) + 255, u64::MAX] {
        let d = Double::from_whole(n);
        assert_eq!((d.significand as f64) * 2f64.powi(d.exponent), n as f64);
    }
    assert_eq!(Double::from_whole((1 << 53) + 1).round_to_i64(), 1 << 53);
    assert_eq!(Double::from_whole((1 << 53) + 3).round_to_i64(), (1 << 53) + 4);
}

#[test]
fn doubles_are_taken_apart() {
    let d = Double::from_bits(1.5_f64.to_bits()).unwrap();
    assert!(d.is_positive());
    assert!(d.in_range_from_zero(2));
    assert!(!d.in_range_from_zero(1));
    assert_eq!(d.round_to_i64(), 2);
    assert_eq!(d.times_thousand().round_to_i64(), 1500);
    let minus = Double::from_bits((-2.5_f64).to_bits()).unwrap();
    assert!(!minus.is_positive());
    assert!(!minus.in_range_from_zero(100));
    assert_eq!(minus.round_to_i64(), -3);
    assert!(Double::from_bits(f64::INFINITY.to_bits()).is_none());
}
