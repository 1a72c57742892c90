//! Decimal integers written as text.
//!
//! A term is the decimal form of an integer when it is an optional sign, `+`
//! or `-`, followed by one or more of the digits `0` to `9`, and the integer
//! lies in the range of `i64`. Any other term is refused, with the reason.

use crate::scan::{first_where, lemma_first_where_bounds, lemma_first_where_is};
use vstd::prelude::*;

verus! {

/// Why a term is not the decimal form of an `i64`.
#[derive(Clone, Copy, Debug, PartialEq, Eq, Structural)]
pub enum IntErrorKind {
    /// The term has no characters.
    Empty,
    /// A character that is not a digit stands where a digit is needed.
    InvalidDigit,
    /// The digits, read from the left, come to more than `i64::MAX`.
    PosOverflow,
    /// The digits behind a `-`, read from the left, come to less than
    /// `i64::MIN`.
    NegOverflow,
}

/// Whether `c` is one of the digits `0` to `9`.
pub open spec fn is_digit(c: char) -> bool {
    '0' <= c && c <= '9'
}

/// The number that the digit `c` stands for.
pub open spec fn digit_value(c: char) -> nat
    recommends
        is_digit(c),
{
    (c as int - '0' as int) as nat
}

/// The natural number that a sequence of digits denotes in base ten.
pub open spec fn decimal_value(digits: Seq<char>) -> nat
    decreases digits.len(),
{
    if digits.len() == 0 {
        0
    } else {
        10 * decimal_value(digits.drop_last()) + digit_value(digits.last())
    }
}

/// The characters that end a run of digits.
pub open spec fn not_digit() -> spec_fn(char) -> bool {
    |c: char| !is_digit(c)
}

/// The number of digits that `s` begins with.
pub open spec fn digit_run(s: Seq<char>) -> int {
    first_where(s, not_digit())
}

/// What a term denotes: the integer, or the reason why it denotes none.
///
/// The term is read from the left, and the first fault met decides: digits
/// that leave the range of `i64` before a character that is not a digit give
/// an overflow, and the other way round an invalid digit.
pub open spec fn parse_int(term: Seq<char>) -> Result<int, IntErrorKind> {
    if term.len() == 0 {
        Err(IntErrorKind::Empty)
    } else {
        let negative = term[0] == '-';
        let digits = if term[0] == '-' || term[0] == '+' {
            term.drop_first()
        } else {
            term
        };
        let run = digits.take(digit_run(digits));
        if digits.len() == 0 {
            Err(IntErrorKind::InvalidDigit)
        } else if !negative && decimal_value(run) > i64::MAX {
            Err(IntErrorKind::PosOverflow)
        } else if negative && -decimal_value(run) < i64::MIN {
            Err(IntErrorKind::NegOverflow)
        } else if run.len() < digits.len() {
            Err(IntErrorKind::InvalidDigit)
        } else if negative {
            Ok(-decimal_value(run))
        } else {
            Ok(decimal_value(run) as int)
        }
    }
}

/// A parsed number as the mathematical integer it holds.
pub open spec fn number_model(parsed: Result<i64, IntErrorKind>) -> Result<int, IntErrorKind> {
    match parsed {
        Ok(v) => Ok(v as int),
        Err(kind) => Err(kind),
    }
}

/// A number that parses lies in the range of `i64`.
pub proof fn lemma_parse_int_range(term: Seq<char>)
    ensures
        parse_int(term) matches Ok(v) ==> i64::MIN <= v <= i64::MAX,
{
}

/// A term that parses has at least one character.
pub proof fn lemma_parse_int_nonempty(term: Seq<char>)
    ensures
        parse_int(term) is Ok ==> term.len() > 0,
{
}

/// What the definition comes to for a term without a fault in it. Digits
/// alone denote the number that they come to in base ten, the same digits
/// behind a `+` denote it too, and behind a `-` its negative: each where that
/// is in the range of `i64`, and else the term overflows on that side.
pub proof fn lemma_parse_int_of_digits(digits: Seq<char>)
    requires
        digits.len() > 0,
        forall|i: int| 0 <= i < digits.len() ==> is_digit(#[trigger] digits[i]),
    ensures
        parse_int(digits) == if decimal_value(digits) <= i64::MAX {
            Ok::<int, IntErrorKind>(decimal_value(digits) as int)
        } else {
            Err::<int, IntErrorKind>(IntErrorKind::PosOverflow)
        },
        parse_int(seq!['+'] + digits) == parse_int(digits),
        parse_int(seq!['-'] + digits) == if -decimal_value(digits) >= i64::MIN {
            Ok::<int, IntErrorKind>(-decimal_value(digits))
        } else {
            Err::<int, IntErrorKind>(IntErrorKind::NegOverflow)
        },
{
    assert forall|j: int| 0 <= j < digits.len() implies !(not_digit())(#[trigger] digits[j]) by {
        assert(is_digit(digits[j]));
    }
    lemma_first_where_is(digits, not_digit(), digits.len() as int);
    assert(digits.take(digits.len() as int) =~= digits);
    assert((seq!['+'] + digits).drop_first() =~= digits);
    assert((seq!['-'] + digits).drop_first() =~= digits);
    assert(is_digit(digits[0]));
}

/// Ten to the power of `n`.
pub open spec fn pow10(n: nat) -> nat
    decreases n,
{
    if n == 0 {
        1
    } else {
        10 * pow10((n - 1) as nat)
    }
}

/// A larger power of ten is a larger number.
pub proof fn lemma_pow10_grows(low: nat, high: nat)
    requires
        low <= high,
    ensures
        1 <= pow10(low) <= pow10(high),
    decreases high,
{
    if low < high {
        lemma_pow10_grows(low, (high - 1) as nat);
    } else if low > 0 {
        lemma_pow10_grows((low - 1) as nat, (low - 1) as nat);
    }
}

/// Two powers of ten together are no more than the power of ten with both
/// exponents and one more.
pub proof fn lemma_pow10_sum(a: nat, b: nat)
    ensures
        pow10(a) + pow10(b) <= pow10(a + b + 1),
{
    let most = if a <= b {
        b
    } else {
        a
    };
    lemma_pow10_grows(a, most);
    lemma_pow10_grows(b, most);
    lemma_pow10_grows(most + 1, a + b + 1);
}

/// Digits come to less than ten to the power of their number.
pub proof fn lemma_decimal_value_bound(digits: Seq<char>)
    requires
        forall|i: int| 0 <= i < digits.len() ==> is_digit(#[trigger] digits[i]),
    ensures
        decimal_value(digits) < pow10(digits.len()),
    decreases digits.len(),
{
    if digits.len() > 0 {
        let front = digits.drop_last();
        assert forall|i: int| 0 <= i < front.len() implies is_digit(#[trigger] front[i]) by {
            assert(front[i] == digits[i]);
        }
        lemma_decimal_value_bound(front);
        assert(is_digit(digits[digits.len() - 1]));
    }
}

/// The integer that a term denotes is, without its sign, less than ten to
/// the power of the length of the term.
pub proof fn lemma_parse_int_bound(term: Seq<char>)
    ensures
        parse_int(term) matches Ok(v) ==> -pow10(term.len()) < v < pow10(term.len()),
{
    if parse_int(term) is Ok {
        let digits = if term[0] == '-' || term[0] == '+' {
            term.drop_first()
        } else {
            term
        };
        lemma_first_where_bounds(digits, not_digit());
        assert(digits.take(digit_run(digits)) =~= digits);
        assert forall|i: int| 0 <= i < digits.len() implies is_digit(#[trigger] digits[i]) by {
            assert(!(not_digit())(digits[i]));
        }
        lemma_decimal_value_bound(digits);
        lemma_pow10_grows(digits.len(), term.len());
    }
}

/// Dropping digits from the end of a sequence of digits never gives a larger
/// number.
pub proof fn lemma_decimal_value_prefix(digits: Seq<char>, n: int)
    requires
        0 <= n <= digits.len(),
    ensures
        decimal_value(digits.take(n)) <= decimal_value(digits),
    decreases digits.len() - n,
{
    if n == digits.len() {
        assert(digits.take(n) =~= digits);
    } else {
        assert(digits.drop_last().take(n) =~= digits.take(n));
        lemma_decimal_value_prefix(digits.drop_last(), n);
    }
}

/// Reads `term` as a decimal integer.
pub fn parse_number(term: &[char]) -> (parsed: Result<i64, IntErrorKind>)
    ensures
        number_model(parsed) == parse_int(term@),
{
    let len: usize = term.len();
    if len == 0 {
        return Err(IntErrorKind::Empty);
    }
    let negative: bool = term[0] == '-';
    let sign_len: usize = if term[0] == '-' || term[0] == '+' {
        1
    } else {
        0
    };
    if sign_len == len {
        return Err(IntErrorKind::InvalidDigit);
    }
    let ghost digits = term@.skip(sign_len as int);
    assert(digits =~= if term@[0] == '-' || term@[0] == '+' {
        term@.drop_first()
    } else {
        term@
    });
    let mut value: i128 = 0;
    let mut at: usize = sign_len;
    while at < len
        invariant
            sign_len <= at <= len,
            len == term@.len(),
            negative == (term@[0] == '-'),
            digits == if term@[0] == '-' || term@[0] == '+' {
                term@.drop_first()
            } else {
                term@
            },
            digits == term@.skip(sign_len as int),
            forall|j: int| 0 <= j < at - sign_len ==> is_digit(#[trigger] digits[j]),
            i64::MIN <= value <= i64::MAX,
            negative ==> value == -decimal_value(digits.take(at - sign_len)),
            !negative ==> value == decimal_value(digits.take(at - sign_len)),
        decreases len - at,
    {
        let c: char = term[at];
        let ghost seen = at - sign_len;
        assert(c == digits[seen]);
        if !('0' <= c && c <= '9') {
            proof {
                lemma_first_where_is(digits, not_digit(), seen);
            }
            return Err(IntErrorKind::InvalidDigit);
        }
        let digit: i128 = (c as u32 - '0' as u32) as i128;
        let next: i128 = if negative {
            value * 10 - digit
        } else {
            value * 10 + digit
        };
        proof {
            assert(digits.take(seen + 1).drop_last() =~= digits.take(seen));
            assert(digits.take(seen + 1).last() == c);
            assert(digit == digit_value(c));
            lemma_first_where_bounds(digits, not_digit());
            let run = digit_run(digits);
            if run <= seen {
                assert(is_digit(digits[run]));
            }
            assert(digits.take(run).take(seen + 1) =~= digits.take(seen + 1));
            lemma_decimal_value_prefix(digits.take(run), seen + 1);
        }
        if next > i64::MAX as i128 {
            return Err(IntErrorKind::PosOverflow);
        }
        if next < i64::MIN as i128 {
            return Err(IntErrorKind::NegOverflow);
        }
        value = next;
        at += 1;
    }
    proof {
        lemma_first_where_is(digits, not_digit(), digits.len() as int);
        assert(digits.take(digits.len() as int) =~= digits);
    }
    Ok(value as i64)
}

} // verus!
