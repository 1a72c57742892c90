use string_calculator::delimiter::Delimiter;
use string_calculator::number::IntErrorKind;
use string_calculator::sum::sum_delimited;
use string_calculator::{sum_wide, CalculatorError};

fn sum_of(text: &str, delimiter: Delimiter) -> Result<i128, IntErrorKind> {
    let chars: Vec<char> = text.chars().collect();
    sum_delimited(&chars, delimiter)
}

fn wide(text: &str) -> Result<i128, CalculatorError> {
    let chars: Vec<char> = text.chars().collect();
    sum_wide(&chars)
}

#[test]
fn sum_delimited_adds_the_terms() {
    assert_eq!(sum_of("1,2,3", Delimiter::Default), Ok(6));
    assert_eq!(sum_of("1\n2,3", Delimiter::Default), Ok(6));
    assert_eq!(sum_of("10;20;30", Delimiter::Custom(';')), Ok(60));
    assert_eq!(sum_of("5", Delimiter::Default), Ok(5));
    assert_eq!(sum_of("-5,+7,-10", Delimiter::Default), Ok(-8));
}

#[test]
fn sum_delimited_sums_the_slice_it_is_given() {
    let chars: Vec<char> = "//;\n1;2".chars().collect();
    assert_eq!(sum_delimited(&chars[4..], Delimiter::Custom(';')), Ok(3));
    let chars: Vec<char> = "1,2,3".chars().collect();
    assert_eq!(sum_delimited(&chars[2..], Delimiter::Default), Ok(5));
    assert_eq!(sum_delimited(&chars[4..], Delimiter::Default), Ok(3));
    assert_eq!(sum_delimited(&chars[..3], Delimiter::Default), Ok(3));
}

#[test]
fn sum_delimited_of_nothing_is_one_empty_term() {
    assert_eq!(sum_of("", Delimiter::Default), Err(IntErrorKind::Empty));
    assert_eq!(sum_of("", Delimiter::Custom(';')), Err(IntErrorKind::Empty));
    let chars: Vec<char> = "1,2,3".chars().collect();
    assert_eq!(sum_delimited(&chars[5..], Delimiter::Default), Err(IntErrorKind::Empty));
}

#[test]
fn sum_delimited_gives_the_reason_of_the_leftmost_term_that_is_no_number() {
    assert_eq!(sum_of("1,,a", Delimiter::Default), Err(IntErrorKind::Empty));
    assert_eq!(sum_of("1,a,", Delimiter::Default), Err(IntErrorKind::InvalidDigit));
    assert_eq!(
        sum_of("9223372036854775808,a,", Delimiter::Default),
        Err(IntErrorKind::PosOverflow)
    );
    assert_eq!(
        sum_of("a,9223372036854775808", Delimiter::Default),
        Err(IntErrorKind::InvalidDigit)
    );
    assert_eq!(
        sum_of("1,-9223372036854775809,x", Delimiter::Default),
        Err(IntErrorKind::NegOverflow)
    );
}

#[test]
fn sum_delimited_takes_the_other_delimiters_for_part_of_a_term() {
    assert_eq!(sum_of("1,2;3", Delimiter::Custom(';')), Err(IntErrorKind::InvalidDigit));
    assert_eq!(sum_of("1\n2", Delimiter::Custom(',')), Err(IntErrorKind::InvalidDigit));
    assert_eq!(sum_of("1;2", Delimiter::Default), Err(IntErrorKind::InvalidDigit));
}

#[test]
fn sum_delimited_has_room_for_sums_beyond_a_number() {
    assert_eq!(
        sum_of("9223372036854775807,1", Delimiter::Default),
        Ok(9223372036854775808i128)
    );
    assert_eq!(
        sum_of("-9223372036854775808,-1", Delimiter::Default),
        Ok(-9223372036854775809i128)
    );
    assert_eq!(
        sum_of(
            "9223372036854775807,9223372036854775807,9223372036854775807",
            Delimiter::Default
        ),
        Ok(27670116110564327421i128)
    );
}

#[test]
fn sum_wide_reads_the_default_delimiters() {
    assert_eq!(wide("1,2\n3"), Ok(6));
    assert_eq!(wide("13,107"), Ok(120));
}

#[test]
fn sum_wide_reads_a_declared_delimiter() {
    assert_eq!(wide("//;\n1;2"), Ok(3));
    assert_eq!(wide("//*\n11*209*1"), Ok(221));
}

#[test]
fn sum_wide_of_the_empty_text_is_no_sum() {
    assert_eq!(wide(""), Err(CalculatorError::ParseIntError(IntErrorKind::Empty)));
}

#[test]
fn sum_wide_refuses_a_marker_without_a_delimiter() {
    assert_eq!(wide("//"), Err(CalculatorError::ParseDelimiterError));
    assert_eq!(wide("//\n1"), Err(CalculatorError::ParseDelimiterError));
    assert_eq!(wide("//;"), Err(CalculatorError::ParseDelimiterError));
}

#[test]
fn sum_wide_goes_beyond_a_number() {
    assert_eq!(wide("9223372036854775807,9223372036854775807"), Ok(18446744073709551614i128));
    assert_eq!(
        wide("//;\n-9223372036854775808;-9223372036854775808"),
        Ok(-18446744073709551616i128)
    );
}
