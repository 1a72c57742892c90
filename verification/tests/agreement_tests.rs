use string_calculator::{checked_add, CalculatorError, IntErrorKind};

fn kind_of(kind: &std::num::IntErrorKind) -> IntErrorKind {
    match kind {
        std::num::IntErrorKind::Empty => IntErrorKind::Empty,
        std::num::IntErrorKind::InvalidDigit => IntErrorKind::InvalidDigit,
        std::num::IntErrorKind::PosOverflow => IntErrorKind::PosOverflow,
        std::num::IntErrorKind::NegOverflow => IntErrorKind::NegOverflow,
        other => panic!("no such failure for an i64: {:?}", other),
    }
}

/// The same sum, written with the splitting and parsing of the standard
/// library.
fn expected(text: &str) -> Option<Result<i64, CalculatorError>> {
    if text.is_empty() {
        return Some(Ok(0));
    }
    let (body, delimiters): (&str, Vec<char>) = if text.starts_with("//") {
        let (first_line, body) = match text.split_once('\n') {
            Some(parts) => parts,
            None => return Some(Err(CalculatorError::ParseDelimiterError)),
        };
        match first_line[2..].chars().next() {
            Some(delimiter) => (body, vec![delimiter]),
            None => return Some(Err(CalculatorError::ParseDelimiterError)),
        }
    } else {
        (text, vec![',', '\n'])
    };
    let mut total: i128 = 0;
    for term in body.split(|c: char| delimiters.contains(&c)) {
        match term.parse::<i64>() {
            Ok(value) => total += value as i128,
            Err(error) => {
                return Some(Err(CalculatorError::ParseIntError(kind_of(error.kind()))));
            }
        }
    }
    match i64::try_from(total) {
        Ok(total) => Some(Ok(total)),
        Err(_) => None,
    }
}

fn step(state: &mut u64) -> u64 {
    *state ^= *state << 13;
    *state ^= *state >> 7;
    *state ^= *state << 17;
    *state
}

fn text_over(alphabet: &[&str], most: u64, state: &mut u64) -> String {
    let pieces = step(state) % (most + 1);
    let mut text = String::new();
    for _ in 0..pieces {
        let piece = alphabet[(step(state) % alphabet.len() as u64) as usize];
        text.push_str(piece);
    }
    text
}

#[test]
fn checked_add_agrees_with_the_standard_library_on_chosen_texts() {
    let texts = [
        "", "1", "1,2", "1\n2,3", "1,\n", "//;\n1;2", "//*\n11*209*1", "a", "35,bc", "//", "//;",
        "//\n", "//\n1", "///\n1/2", "//;;\n1;2", "//;\n", "//;\n;", "//;\n1;;2", ",", "\n", ",,",
        "1,2,", ",1,2", "+1,-1", "-,1", "9223372036854775807,1", "-9223372036854775808,-1",
        "9223372036854775808", "//\u{e9}\n1\u{e9}2", "//1\n212", "/", "/,/", "1//2", "//,\n1\n2",
        "//\n\n1", "// \n1 2", "1\r\n2",
    ];
    for text in texts {
        assert_eq!(checked_add(text), expected(text), "text {:?}", text);
    }
}

#[test]
fn checked_add_agrees_with_the_standard_library_on_texts_without_a_marker() {
    let alphabet = ["0", "1", "2", "7", "9", ",", "\n", ",", "-", "+", "a", " ", "12", "300"];
    let mut state: u64 = 0x2545_f491_4f6c_dd1d;
    for _ in 0..20000 {
        let text = text_over(&alphabet, 12, &mut state);
        assert_eq!(checked_add(&text), expected(&text), "text {:?}", text);
    }
}

#[test]
fn checked_add_agrees_with_the_standard_library_on_texts_with_a_marker() {
    let alphabet = ["0", "1", "5", "9", ",", "\n", ";", ";", "/", "-", "x", "\u{e9}", "42"];
    let mut state: u64 = 0x9e37_79b9_7f4a_7c15;
    for _ in 0..20000 {
        let mut text = String::from("//");
        text.push_str(&text_over(&alphabet, 3, &mut state));
        if step(&mut state) % 8 != 0 {
            text.push('\n');
        }
        text.push_str(&text_over(&alphabet, 10, &mut state));
        assert_eq!(checked_add(&text), expected(&text), "text {:?}", text);
    }
}

#[test]
fn checked_add_agrees_with_the_standard_library_on_large_terms() {
    let alphabet = [
        "9223372036854775807",
        "-9223372036854775808",
        "9223372036854775808",
        "-9223372036854775809",
        "4611686018427387904",
        "-4611686018427387904",
        "1",
        "-1",
        ",",
        ",",
        ",",
        "\n",
    ];
    let mut state: u64 = 0x0123_4567_89ab_cdef;
    for _ in 0..20000 {
        let text = text_over(&alphabet, 9, &mut state);
        assert_eq!(checked_add(&text), expected(&text), "text {:?}", text);
    }
}

#[test]
fn add_agrees_with_checked_add_where_the_sum_fits() {
    let alphabet = ["0", "1", "2", "7", "9", ",", "\n", "-", "+", "a", "//", ";", "15"];
    let mut state: u64 = 0xdead_beef_cafe_f00d;
    let mut sums = 0;
    for _ in 0..20000 {
        let text = text_over(&alphabet, 10, &mut state);
        if let Some(result) = checked_add(&text) {
            assert_eq!(string_calculator::add(&text), result, "text {:?}", text);
            if !text.is_empty() {
                assert_eq!(string_calculator::add_non_empty(&text), result, "text {:?}", text);
            }
            if result.is_ok() {
                sums += 1;
            }
        }
    }
    assert!(sums > 100);
}
