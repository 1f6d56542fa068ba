use flager::convert::{int_to_text, parse_int, parse_range, range_to_text};
use flager::{Flag, Parser};

fn trip(v: i128) {
    let text = int_to_text(v);
    assert_eq!(parse_int(&text), Some(v));
}

fn trip_range(a: i128, b: i128) {
    let text = range_to_text(a, b);
    assert_eq!(parse_range(&text), Some((a, b)));
}

#[test]
fn int_text_round_trips_i8() {
    for v in [i8::MIN, -1, 0, 1, i8::MAX] {
        trip(v as i128);
        trip_range(v as i128, v as i128);
    }
}

#[test]
fn int_text_round_trips_i16() {
    for v in [i16::MIN, -1, 0, 1, i16::MAX] {
        trip(v as i128);
        trip_range(v as i128, v as i128);
    }
}

#[test]
fn int_text_round_trips_i32() {
    for v in [i32::MIN, -1, 0, 1, i32::MAX] {
        trip(v as i128);
        trip_range(v as i128, v as i128);
    }
}

#[test]
fn int_text_round_trips_i64() {
    for v in [i64::MIN, -1, 0, 1, i64::MAX] {
        trip(v as i128);
        trip_range(v as i128, v as i128);
    }
}

#[test]
fn int_text_round_trips_i128() {
    for v in [i128::MIN, -1, 0, 1, i128::MAX] {
        trip(v);
        trip_range(v, v);
    }
}

#[test]
fn int_text_round_trips_isize() {
    for v in [isize::MIN, -1, 0, 1, isize::MAX] {
        trip(v as i128);
        trip_range(v as i128, v as i128);
    }
}

#[test]
fn int_text_round_trips_u8() {
    for v in [u8::MIN, 1, u8::MAX] {
        trip(v as i128);
        trip_range(v as i128, v as i128);
    }
}

#[test]
fn int_text_round_trips_u16() {
    for v in [u16::MIN, 1, u16::MAX] {
        trip(v as i128);
        trip_range(v as i128, v as i128);
    }
}

#[test]
fn int_text_round_trips_u32() {
    for v in [u32::MIN, 1, u32::MAX] {
        trip(v as i128);
        trip_range(v as i128, v as i128);
    }
}

#[test]
fn int_text_round_trips_u64() {
    for v in [u64::MIN, 1, u64::MAX] {
        trip(v as i128);
        trip_range(v as i128, v as i128);
    }
}

#[test]
fn int_text_round_trips_u128_within_the_funnel() {
    // The funnel is the widest signed width, so only values up to its
    // positive end can round-trip.
    for v in [0u128, 1, i128::MAX as u128] {
        trip(v as i128);
        trip_range(v as i128, v as i128);
    }
}

#[test]
fn int_text_round_trips_usize() {
    for v in [usize::MIN, 1, usize::MAX] {
        trip(v as i128);
        trip_range(v as i128, v as i128);
    }
}

#[test]
fn canonical_text_resolves_back_through_a_flag() {
    let text = int_to_text(-7);
    let parser = Parser::new(vec!["-f".to_string(), text.clone()]);
    let flag = Flag::<i32>::new("-f", "--flag", None);
    assert_eq!(parser.parse(&flag), Ok(Some(-7)));
    assert_eq!(text, "-7");
}

#[test]
fn serializer_writes_canonical_decimal() {
    assert_eq!(int_to_text(0), "0");
    assert_eq!(int_to_text(42), "42");
    assert_eq!(int_to_text(-1), "-1");
    assert_eq!(
        int_to_text(i128::MIN),
        "-170141183460469231731687303715884105728"
    );
    assert_eq!(range_to_text(-1, 5), "-1..5");
}

#[test]
fn parse_int_accepts_signs_and_leading_zeros() {
    assert_eq!(parse_int("+42"), Some(42));
    assert_eq!(parse_int("0009"), Some(9));
    assert_eq!(parse_int("-0"), Some(0));
}

#[test]
fn parse_int_rejects_what_is_not_a_decimal_integer() {
    assert_eq!(parse_int(""), None);
    assert_eq!(parse_int("-"), None);
    assert_eq!(parse_int("+"), None);
    assert_eq!(parse_int("4 2"), None);
    assert_eq!(parse_int("42x"), None);
    assert_eq!(parse_int("x42"), None);
    assert_eq!(parse_int("4.2"), None);
}

#[test]
fn parse_int_rejects_values_beyond_the_widest_signed_width() {
    // One past either end of the funnel's width.
    assert_eq!(parse_int("170141183460469231731687303715884105728"), None);
    assert_eq!(parse_int("-170141183460469231731687303715884105729"), None);
    assert_eq!(
        parse_int("170141183460469231731687303715884105727"),
        Some(i128::MAX)
    );
    assert_eq!(
        parse_int("-170141183460469231731687303715884105728"),
        Some(i128::MIN)
    );
}

#[test]
fn parse_range_wants_exactly_one_separator_with_both_sides() {
    assert_eq!(parse_range("1..2"), Some((1, 2)));
    assert_eq!(parse_range("-1..-2"), Some((-1, -2)));
    assert_eq!(parse_range("1..2..3"), None);
    assert_eq!(parse_range("..2"), None);
    assert_eq!(parse_range("1.."), None);
    assert_eq!(parse_range(".."), None);
    assert_eq!(parse_range("12"), None);
    assert_eq!(parse_range("1...2"), None);
}
