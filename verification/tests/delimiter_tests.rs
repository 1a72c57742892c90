use string_calculator::delimiter::{find_delimiter, Delimiter};

fn find(text: &str, delimiter: Delimiter) -> usize {
    let chars: Vec<char> = text.chars().collect();
    find_delimiter(&chars, delimiter)
}

#[test]
fn default_delimiter_is_a_comma_or_a_line_feed() {
    assert!(Delimiter::Default.is_match(','));
    assert!(Delimiter::Default.is_match('\n'));
    assert!(!Delimiter::Default.is_match(';'));
    assert!(!Delimiter::Default.is_match(' '));
    assert!(!Delimiter::Default.is_match('\r'));
    assert!(!Delimiter::Default.is_match('1'));
}

#[test]
fn custom_delimiter_is_its_character_alone() {
    assert!(Delimiter::Custom(';').is_match(';'));
    assert!(!Delimiter::Custom(';').is_match(','));
    assert!(!Delimiter::Custom(';').is_match('\n'));
    assert!(Delimiter::Custom(',').is_match(','));
    assert!(!Delimiter::Custom(',').is_match('\n'));
    assert!(Delimiter::Custom('\u{e9}').is_match('\u{e9}'));
}

#[test]
fn find_delimiter_gives_the_first_one() {
    assert_eq!(find("12,3,4", Delimiter::Default), 2);
    assert_eq!(find("12\n3,4", Delimiter::Default), 2);
    assert_eq!(find(",1", Delimiter::Default), 0);
    assert_eq!(find("\n", Delimiter::Default), 0);
    assert_eq!(find("1;2,3", Delimiter::Custom(';')), 1);
    assert_eq!(find("1,2;3", Delimiter::Custom(';')), 3);
    assert_eq!(find("//;\n1;2", Delimiter::Custom('\n')), 3);
}

#[test]
fn find_delimiter_gives_the_length_where_there_is_none() {
    assert_eq!(find("", Delimiter::Default), 0);
    assert_eq!(find("123", Delimiter::Default), 3);
    assert_eq!(find("1,2,3", Delimiter::Custom(';')), 5);
    assert_eq!(find("//;1;2", Delimiter::Custom('\n')), 6);
}

#[test]
fn find_delimiter_counts_characters() {
    assert_eq!(find("\u{e9}\u{e9},1", Delimiter::Default), 2);
    assert_eq!(find("1\u{1f600}2", Delimiter::Custom('\u{1f600}')), 1);
    assert_eq!(find("\u{1f600}\u{1f600}", Delimiter::Default), 2);
}

#[test]
fn find_delimiter_looks_at_the_slice_it_is_given() {
    let chars: Vec<char> = "12,3,4".chars().collect();
    assert_eq!(find_delimiter(&chars[3..], Delimiter::Default), 1);
    assert_eq!(find_delimiter(&chars[5..], Delimiter::Default), 1);
    assert_eq!(find_delimiter(&chars[6..], Delimiter::Default), 0);
    assert_eq!(find_delimiter(&chars[2..], Delimiter::Default), 0);
}
