//! The sum of the terms of a delimited text.

use crate::delimiter::{find_delimiter, lemma_split_step, split, Delimiter};
use crate::number::{parse_int, parse_number, IntErrorKind};
use vstd::prelude::*;
use vstd::slice::slice_subrange;

verus! {

/// The sum of the integers that `terms` denote, or the reason why the
/// leftmost term that denotes none does not.
pub open spec fn sum_terms(terms: Seq<Seq<char>>) -> Result<int, IntErrorKind>
    decreases terms.len(),
{
    if terms.len() == 0 {
        Ok(0)
    } else {
        match parse_int(terms[0]) {
            Err(kind) => Err(kind),
            Ok(first) => match sum_terms(terms.drop_first()) {
                Err(kind) => Err(kind),
                Ok(rest) => Ok(first + rest),
            },
        }
    }
}

/// A sum held in an `i128` as the mathematical integer it holds.
pub open spec fn wide_model(total: Result<i128, IntErrorKind>) -> Result<int, IntErrorKind> {
    match total {
        Ok(v) => Ok(v as int),
        Err(kind) => Err(kind),
    }
}

/// `sum` with `done` added to it where there is one.
pub open spec fn carried(done: int, sum: Result<int, IntErrorKind>) -> Result<
    int,
    IntErrorKind,
> {
    match sum {
        Ok(v) => Ok(done + v),
        Err(kind) => Err(kind),
    }
}

/// Sums the terms that `delimiter` cuts `text` into.
///
/// An `i128` holds the sum of any terms that a slice has room for, so the
/// sum itself never fails: only a term can.
pub fn sum_delimited(text: &[char], delimiter: Delimiter) -> (total: Result<i128, IntErrorKind>)
    ensures
        wide_model(total) == sum_terms(split(text@, delimiter)),
{
    let len: usize = text.len();
    let mut done: i128 = 0;
    let mut rest: &[char] = text;
    loop
        invariant
            rest@.len() <= len,
            -(len - rest@.len()) * 0x8000_0000_0000_0000 <= done <= (len - rest@.len())
                * 0x7fff_ffff_ffff_ffff,
            sum_terms(split(text@, delimiter)) == carried(
                done as int,
                sum_terms(split(rest@, delimiter)),
            ),
        decreases rest@.len(),
    {
        let end: usize = find_delimiter(rest, delimiter);
        let term: &[char] = slice_subrange(rest, 0, end);
        proof {
            lemma_split_step(rest@, delimiter);
            if end == rest@.len() {
                assert(sum_terms(split(rest@, delimiter).drop_first()) == Ok::<int, IntErrorKind>(
                    0,
                ));
            }
        }
        match parse_number(term) {
            Err(kind) => {
                return Err(kind);
            },
            Ok(value) => {
                done = done + value as i128;
                if end == rest.len() {
                    return Ok(done);
                }
                rest = slice_subrange(rest, end + 1, rest.len());
            },
        }
    }
}

} // verus!
