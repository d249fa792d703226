use crdt_table::scalar::{float_or_text, parse, parse_integer};
use yrs::Any;

#[test]
fn parse_reads_an_integer() {
    assert_eq!(parse("42"), Any::from(42i64));
}

#[test]
fn parse_reads_a_float() {
    assert_eq!(parse("3.14"), Any::from(3.14f64));
}

#[test]
fn parse_keeps_other_text() {
    assert_eq!(parse("abc"), Any::from("abc"));
}

#[test]
fn parse_keeps_the_empty_text() {
    assert_eq!(parse(""), Any::from(""));
}

#[test]
fn parse_reads_leading_zeros_as_an_integer() {
    assert_eq!(parse("007"), Any::from(7i64));
}

#[test]
fn parse_prefers_an_integer_to_a_float() {
    assert!(matches!(parse("10"), Any::Number(yrs::Number::Int(10))));
    assert!(matches!(parse("10.0"), Any::Number(yrs::Number::Float(_))));
    assert!(matches!(parse("1e3"), Any::Number(yrs::Number::Float(_))));
    assert_eq!(parse("1e3"), Any::from(1000.0f64));
}

#[test]
fn parse_reads_signs() {
    assert_eq!(parse("-5"), Any::from(-5i64));
    assert_eq!(parse("+5"), Any::from(5i64));
    assert_eq!(parse("-0"), Any::from(0i64));
    assert_eq!(parse("-2.5"), Any::from(-2.5f64));
    assert_eq!(parse("-"), Any::from("-"));
    assert_eq!(parse("+"), Any::from("+"));
    assert_eq!(parse("+-5"), Any::from("+-5"));
}

#[test]
fn parse_reads_the_ends_of_the_integer_range() {
    assert_eq!(parse("9223372036854775807"), Any::from(i64::MAX));
    assert_eq!(parse("-9223372036854775808"), Any::from(i64::MIN));
    assert!(matches!(
        parse("9223372036854775808"),
        Any::Number(yrs::Number::Float(_))
    ));
    assert_eq!(parse("9223372036854775808"), Any::from(9223372036854775808.0f64));
    assert!(matches!(
        parse("-9223372036854775809"),
        Any::Number(yrs::Number::Float(_))
    ));
}

#[test]
fn parse_keeps_whitespace() {
    assert_eq!(parse(" 42"), Any::from(" 42"));
    assert_eq!(parse("42 "), Any::from("42 "));
    assert_eq!(parse(" "), Any::from(" "));
    assert_eq!(parse("1,000"), Any::from("1,000"));
}

#[test]
fn parse_reads_what_the_float_grammar_allows() {
    assert_eq!(parse("inf"), Any::from(f64::INFINITY));
    assert_eq!(parse(".5"), Any::from(0.5f64));
    assert_eq!(parse("5."), Any::from(5.0f64));
    match parse("NaN") {
        Any::Number(yrs::Number::Float(x)) => assert!(x.is_nan()),
        _ => panic!("not a float"),
    }
}

#[test]
fn parse_integer_agrees_with_the_standard_library() {
    let samples = [
        "",
        "0",
        "00",
        "7",
        "-7",
        "+7",
        "--7",
        "++7",
        "-+7",
        "7-",
        "12a",
        "a12",
        "1_000",
        "0x10",
        "٣",
        "１２",
        "é",
        "123456789012345678",
        "9223372036854775806",
        "9223372036854775807",
        "9223372036854775808",
        "9223372036854775809",
        "-9223372036854775807",
        "-9223372036854775808",
        "-9223372036854775809",
        "+9223372036854775807",
        "+9223372036854775808",
        "18446744073709551615",
        "18446744073709551616",
        "99999999999999999999999999",
        "-99999999999999999999999999",
        "000000000000000000000000000000000000001",
        "-000000000000000000009223372036854775808",
        "000000000000000000009223372036854775808",
        "10000000000000000000",
        "92233720368547758070",
        " 1",
        "1 ",
        "1.0",
        "-",
        "+",
    ];
    for sample in samples {
        assert_eq!(parse_integer(sample), sample.parse::<i64>().ok(), "{:?}", sample);
    }
}

#[test]
fn parse_integer_agrees_on_small_numbers() {
    for n in -1200i64..1200 {
        let text = format!("{}", n);
        assert_eq!(parse_integer(&text), Some(n));
        assert_eq!(parse(&text), Any::from(n));
    }
}

#[test]
fn float_or_text_takes_the_number_where_there_is_one() {
    assert_eq!(float_or_text("2.5", Some(Any::from(2.5f64))), Any::from(2.5f64));
    assert_eq!(float_or_text("abc", None), Any::from("abc"));
    assert_eq!(float_or_text("", None), Any::from(""));
}
