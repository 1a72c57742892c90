//! Sums the integers written in a delimited string.
//!
//! The terms of a sum are separated by commas or line feeds, as in `1,2\n3`.
//! A text that begins with `//` declares a delimiter of its own on its first
//! line, as in `//;\n1;2`: the character behind the marker separates the
//! terms of the lines that follow. Every term must be the decimal form of an
//! `i64`; an empty text sums to zero.

pub mod delimiter;
pub mod laws;
pub mod number;
pub mod scan;
pub mod sum;
pub mod text;

use crate::delimiter::{find_delimiter, first_delimiter, split, Delimiter};
pub use crate::number::IntErrorKind;
use crate::sum::{sum_delimited, sum_terms};
use crate::text::chars_of;
use vstd::prelude::*;
use vstd::slice::slice_subrange;

verus! {

/// The integers that a sum is made of, and the sum itself.
pub type Number = i64;

/// A sum, or the reason why the text has none.
pub type CalculatorResult = Result<Number, CalculatorError>;

/// Why a text has no sum.
#[derive(Clone, Copy, Debug, PartialEq, Eq, Structural)]
pub enum CalculatorError {
    /// The text begins with `//` but declares no delimiter: its first line
    /// ends right behind the marker, or does not end at all.
    ParseDelimiterError,
    /// A term is not the decimal form of an `i64`, for the reason given.
    ParseIntError(IntErrorKind),
}

impl From<IntErrorKind> for CalculatorError {
    fn from(kind: IntErrorKind) -> (error: CalculatorError) {
        CalculatorError::ParseIntError(kind)
    }
}

impl vstd::std_specs::convert::FromSpecImpl<IntErrorKind> for CalculatorError {
    open spec fn obeys_from_spec() -> bool {
        true
    }

    open spec fn from_spec(kind: IntErrorKind) -> CalculatorError {
        CalculatorError::ParseIntError(kind)
    }
}

/// Whether `s` begins with the marker `//`, which announces a delimiter.
pub open spec fn declares_delimiter(s: Seq<char>) -> bool {
    s.len() >= 2 && s[0] == '/' && s[1] == '/'
}

/// Where the first line of `s` ends: the index of its first line feed, or
/// `s.len()` where it has none.
pub open spec fn first_line_end(s: Seq<char>) -> int {
    first_delimiter(s, Delimiter::Custom('\n'))
}

/// Whether `s` says which delimiter it uses: it announces none, or its first
/// line holds a character behind the marker and ends in a line feed.
pub open spec fn delimiter_known(s: Seq<char>) -> bool {
    declares_delimiter(s) ==> 2 < first_line_end(s) < s.len()
}

/// The delimiter of `s`: the first character behind the marker, whatever
/// else the first line holds, or the default one where `s` has no marker.
pub open spec fn delimiter_of(s: Seq<char>) -> Delimiter {
    if declares_delimiter(s) {
        Delimiter::Custom(s[2])
    } else {
        Delimiter::Default
    }
}

/// The part of `s` that holds the terms: what follows the first line where
/// `s` announces a delimiter, and else all of `s`.
pub open spec fn body_of(s: Seq<char>) -> Seq<char> {
    if declares_delimiter(s) {
        s.skip(first_line_end(s) + 1)
    } else {
        s
    }
}

/// The terms of `s`, from left to right.
pub open spec fn terms_of(s: Seq<char>) -> Seq<Seq<char>> {
    split(body_of(s), delimiter_of(s))
}

/// The sum of a text that is not empty, as a mathematical integer.
pub open spec fn add_non_empty_spec(s: Seq<char>) -> Result<int, CalculatorError> {
    if delimiter_known(s) {
        match sum_terms(terms_of(s)) {
            Ok(total) => Ok(total),
            Err(kind) => Err(CalculatorError::ParseIntError(kind)),
        }
    } else {
        Err(CalculatorError::ParseDelimiterError)
    }
}

/// The sum of a text, as a mathematical integer: zero for the empty text.
pub open spec fn add_spec(s: Seq<char>) -> Result<int, CalculatorError> {
    if s.len() == 0 {
        Ok(0)
    } else {
        add_non_empty_spec(s)
    }
}

/// Whether a sum, where there is one, lies in the range of `Number`.
pub open spec fn sum_fits(sum: Result<int, CalculatorError>) -> bool {
    sum matches Ok(total) ==> Number::MIN <= total <= Number::MAX
}

/// A result as the mathematical integer or the error it holds.
pub open spec fn result_model(result: CalculatorResult) -> Result<int, CalculatorError> {
    match result {
        Ok(total) => Ok(total as int),
        Err(error) => Err(error),
    }
}

/// A sum held in an `i128` as the mathematical integer or the error it holds.
pub open spec fn wide_result_model(total: Result<i128, CalculatorError>) -> Result<
    int,
    CalculatorError,
> {
    match total {
        Ok(total) => Ok(total as int),
        Err(error) => Err(error),
    }
}

/// Sums the terms of `text` as `add_non_empty` does, but in an `i128`, which
/// holds the sum of any terms that a slice has room for.
pub fn sum_wide(text: &[char]) -> (total: Result<i128, CalculatorError>)
    ensures
        wide_result_model(total) == add_non_empty_spec(text@),
{
    if text.len() >= 2 && text[0] == '/' && text[1] == '/' {
        let line_end: usize = find_delimiter(text, Delimiter::Custom('\n'));
        if line_end <= 2 || line_end >= text.len() {
            return Err(CalculatorError::ParseDelimiterError);
        }
        let body: &[char] = slice_subrange(text, line_end + 1, text.len());
        match sum_delimited(body, Delimiter::Custom(text[2])) {
            Ok(total) => Ok(total),
            Err(kind) => Err(CalculatorError::from(kind)),
        }
    } else {
        match sum_delimited(text, Delimiter::Default) {
            Ok(total) => Ok(total),
            Err(kind) => Err(CalculatorError::from(kind)),
        }
    }
}

/// Sums the terms of `numbers`; the empty text sums to zero.
///
/// The sum must have room in a `Number`; the order of the terms makes no
/// difference to that. `checked_add` asks nothing of the text.
pub fn add(numbers: &str) -> (result: CalculatorResult)
    requires
        sum_fits(add_spec(numbers@)),
    ensures
        result_model(result) == add_spec(numbers@),
{
    if numbers.is_empty() {
        Ok(0)
    } else {
        add_non_empty(numbers)
    }
}

/// Sums the terms of `numbers`, of which there is always at least one: the
/// empty text has one empty term, which is no number.
///
/// The sum must have room in a `Number`.
pub fn add_non_empty(numbers: &str) -> (result: CalculatorResult)
    requires
        sum_fits(add_non_empty_spec(numbers@)),
    ensures
        result_model(result) == add_non_empty_spec(numbers@),
{
    let text = chars_of(numbers);
    match sum_wide(text.as_slice()) {
        Ok(total) => Ok(total as Number),
        Err(error) => Err(error),
    }
}

/// Sums the terms of `numbers` as `add` does, for any text: `None` says that
/// the terms are all numbers and their sum has no room in a `Number`.
pub fn checked_add(numbers: &str) -> (result: Option<CalculatorResult>)
    ensures
        result is None <==> !sum_fits(add_spec(numbers@)),
        result matches Some(sum) ==> result_model(sum) == add_spec(numbers@),
{
    if numbers.is_empty() {
        return Some(Ok(0));
    }
    let text = chars_of(numbers);
    match sum_wide(text.as_slice()) {
        Ok(total) => {
            if Number::MIN as i128 <= total && total <= Number::MAX as i128 {
                Some(Ok(total as Number))
            } else {
                None
            }
        },
        Err(error) => Some(Err(error)),
    }
}

} // verus!
