//! Delimiters, and the terms that they cut a text into.

use crate::scan::{first_where, lemma_first_where_bounds, lemma_first_where_is};
use vstd::prelude::*;

verus! {

/// The characters that separate the terms of a sum.
#[derive(Clone, Copy, Debug, PartialEq, Eq, Structural)]
pub enum Delimiter {
    /// A comma or a line feed: either one separates.
    Default,
    /// The one character that the text itself declared.
    Custom(char),
}

impl Delimiter {
    /// Whether `c` separates two terms.
    pub open spec fn matches(self, c: char) -> bool {
        match self {
            Delimiter::Default => c == ',' || c == '\n',
            Delimiter::Custom(d) => c == d,
        }
    }

    /// `matches` as a predicate on characters.
    pub open spec fn matcher(self) -> spec_fn(char) -> bool {
        |c: char| self.matches(c)
    }

    /// Whether `c` separates two terms.
    pub fn is_match(&self, c: char) -> (found: bool)
        ensures
            found == self.matches(c),
    {
        match self {
            Delimiter::Default => c == ',' || c == '\n',
            Delimiter::Custom(d) => c == *d,
        }
    }
}

/// The index of the first delimiter in `s`, or `s.len()` where there is none.
pub open spec fn first_delimiter(s: Seq<char>, delimiter: Delimiter) -> int {
    first_where(s, delimiter.matcher())
}

/// The terms of `s`: the stretches between one delimiter and the next, from
/// left to right. A text with `n` delimiters has `n + 1` terms, and a term is
/// empty where two delimiters touch or one stands at either end.
pub open spec fn split(s: Seq<char>, delimiter: Delimiter) -> Seq<Seq<char>>
    decreases s.len(),
{
    let cut = first_delimiter(s, delimiter);
    if 0 <= cut < s.len() {
        seq![s.take(cut)] + split(s.skip(cut + 1), delimiter)
    } else {
        seq![s]
    }
}

/// The delimiters of `s`, from left to right.
pub open spec fn delimiters_in(s: Seq<char>, delimiter: Delimiter) -> Seq<char> {
    s.filter(delimiter.matcher())
}

/// The text that `terms` make with one character of `between` put behind
/// each term but the last.
pub open spec fn join(terms: Seq<Seq<char>>, between: Seq<char>) -> Seq<char>
    decreases terms.len(),
{
    if terms.len() == 0 {
        Seq::empty()
    } else if terms.len() == 1 {
        terms[0]
    } else {
        terms[0].push(between[0]) + join(terms.drop_first(), between.drop_first())
    }
}

/// The first term of `s` ends at its first delimiter, and the terms after it
/// are those of the text behind that delimiter.
pub proof fn lemma_split_step(s: Seq<char>, delimiter: Delimiter)
    ensures
        0 <= first_delimiter(s, delimiter) <= s.len(),
        split(s, delimiter).len() >= 1,
        split(s, delimiter)[0] == s.take(first_delimiter(s, delimiter)),
        first_delimiter(s, delimiter) == s.len() ==> split(s, delimiter) == seq![s],
        first_delimiter(s, delimiter) < s.len() ==> split(s, delimiter).drop_first() == split(
            s.skip(first_delimiter(s, delimiter) + 1),
            delimiter,
        ),
{
    lemma_first_where_bounds(s, delimiter.matcher());
    let cut = first_delimiter(s, delimiter);
    if cut < s.len() {
        let rest = split(s.skip(cut + 1), delimiter);
        assert((seq![s.take(cut)] + rest).drop_first() =~= rest);
    } else {
        assert(s.take(cut) =~= s);
    }
}

/// The index of the first delimiter in `text`, or `text.len()` where there
/// is none.
pub fn find_delimiter(text: &[char], delimiter: Delimiter) -> (at: usize)
    ensures
        at == first_delimiter(text@, delimiter),
        at <= text@.len(),
{
    let mut at: usize = 0;
    while at < text.len() && !delimiter.is_match(text[at])
        invariant
            at <= text@.len(),
            forall|j: int| 0 <= j < at ==> !delimiter.matches(#[trigger] text@[j]),
        decreases text@.len() - at,
    {
        at += 1;
    }
    proof {
        assert forall|j: int| 0 <= j < at implies !(delimiter.matcher())(#[trigger] text@[j]) by {
            assert(!delimiter.matches(text@[j]));
        }
        lemma_first_where_is(text@, delimiter.matcher(), at as int);
    }
    at
}

} // verus!
