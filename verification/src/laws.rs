//! What holds of every sum.

use crate::delimiter::{
    delimiters_in, first_delimiter, join, lemma_split_step, split, Delimiter,
};
use crate::number::{
    lemma_parse_int_bound, lemma_pow10_grows, lemma_pow10_sum, parse_int, pow10, IntErrorKind,
};
use crate::scan::{lemma_first_where_bounds, lemma_first_where_is};
use crate::sum::sum_terms;
use crate::{
    add_spec, body_of, declares_delimiter, delimiter_known, delimiter_of, first_line_end,
    result_model, sum_fits, terms_of, CalculatorError, CalculatorResult,
};
use vstd::prelude::*;

verus! {

/// Splitting undoes joining. The terms of a text hold no delimiter, there is
/// one term more than the text has delimiters, and the terms joined by those
/// delimiters are the text again.
pub proof fn lemma_split_joins(s: Seq<char>, delimiter: Delimiter)
    ensures
        split(s, delimiter).len() == delimiters_in(s, delimiter).len() + 1,
        forall|i: int, j: int|
            0 <= i < split(s, delimiter).len() && 0 <= j < split(s, delimiter)[i].len()
                ==> !delimiter.matches(#[trigger] split(s, delimiter)[i][j]),
        join(split(s, delimiter), delimiters_in(s, delimiter)) == s,
    decreases s.len(),
{
    let found = delimiter.matcher();
    let cut = first_delimiter(s, delimiter);
    let terms = split(s, delimiter);
    lemma_first_where_bounds(s, found);
    let head = s.take(cut);
    assert(head.all(|c: char| !found(c))) by {
        assert forall|j: int| 0 <= j < head.len() implies !found(#[trigger] head[j]) by {
            assert(head[j] == s[j]);
        }
    }
    head.lemma_all_neg_filter_empty(found);
    if cut < s.len() {
        let rest = s.skip(cut + 1);
        lemma_split_joins(rest, delimiter);
        let later = split(rest, delimiter);
        assert(terms =~= seq![head] + later);
        assert(terms.drop_first() =~= later);
        assert(s =~= head.push(s[cut]) + rest);
        head.lemma_filter_push(s[cut], found);
        Seq::filter_distributes_over_add(head.push(s[cut]), rest, found);
        assert(head.filter(found) =~= Seq::<char>::empty());
        let between = delimiters_in(s, delimiter);
        assert(between =~= seq![s[cut]] + delimiters_in(rest, delimiter));
        assert(between.drop_first() =~= delimiters_in(rest, delimiter));
        assert forall|i: int, j: int|
            0 <= i < terms.len() && 0 <= j < terms[i].len() implies !delimiter.matches(
            #[trigger] terms[i][j],
        ) by {
            if i == 0 {
                assert(!found(head[j]));
            } else {
                assert(terms[i] == later[i - 1]);
            }
        }
    } else {
        assert(head =~= s);
        assert(terms =~= seq![s]);
        assert forall|i: int, j: int|
            0 <= i < terms.len() && 0 <= j < terms[i].len() implies !delimiter.matches(
            #[trigger] terms[i][j],
        ) by {
            assert(!found(head[j]));
        }
    }
}

/// Texts of one length that differ only in which delimiter stands at a place
/// have the same terms.
pub proof fn lemma_split_alike(s: Seq<char>, t: Seq<char>, delimiter: Delimiter)
    requires
        s.len() == t.len(),
        forall|i: int|
            #![trigger s[i]]
            #![trigger t[i]]
            0 <= i < s.len() ==> s[i] == t[i] || (delimiter.matches(s[i]) && delimiter.matches(
                t[i],
            )),
    ensures
        split(t, delimiter) == split(s, delimiter),
    decreases s.len(),
{
    lemma_first_where_bounds(s, delimiter.matcher());
    let cut = first_delimiter(s, delimiter);
    assert forall|j: int| 0 <= j < cut implies !(delimiter.matcher())(#[trigger] t[j]) by {
        assert(!(delimiter.matcher())(s[j]));
    }
    lemma_first_where_is(t, delimiter.matcher(), cut);
    assert(t.take(cut) =~= s.take(cut));
    if cut < s.len() {
        let s_rest = s.skip(cut + 1);
        let t_rest = t.skip(cut + 1);
        assert forall|i: int|
            #![trigger s_rest[i]]
            #![trigger t_rest[i]]
            0 <= i < s_rest.len() implies s_rest[i] == t_rest[i] || (delimiter.matches(s_rest[i])
            && delimiter.matches(t_rest[i])) by {
            assert(s_rest[i] == s[cut + 1 + i]);
            assert(t_rest[i] == t[cut + 1 + i]);
        }
        lemma_split_alike(s_rest, t_rest, delimiter);
    } else {
        assert(t =~= s);
    }
}

/// A text that ends in a delimiter ends in an empty term.
pub proof fn lemma_split_trailing_delimiter(s: Seq<char>, delimiter: Delimiter)
    requires
        s.len() > 0,
        delimiter.matches(s.last()),
    ensures
        split(s, delimiter).len() >= 2,
        split(s, delimiter).last().len() == 0,
    decreases s.len(),
{
    lemma_first_where_bounds(s, delimiter.matcher());
    let cut = first_delimiter(s, delimiter);
    if cut == s.len() {
        assert(!(delimiter.matcher())(s[s.len() - 1]));
    }
    let rest = s.skip(cut + 1);
    lemma_split_step(rest, delimiter);
    if rest.len() > 0 {
        assert(rest.last() == s.last());
        lemma_split_trailing_delimiter(rest, delimiter);
    } else {
        lemma_first_where_bounds(rest, delimiter.matcher());
    }
}

/// Terms have a sum exactly when each of them denotes an integer.
pub proof fn lemma_sum_terms_ok(terms: Seq<Seq<char>>)
    ensures
        sum_terms(terms) is Ok <==> forall|i: int|
            0 <= i < terms.len() ==> (#[trigger] parse_int(terms[i])) is Ok,
    decreases terms.len(),
{
    if terms.len() > 0 {
        let rest = terms.drop_first();
        lemma_sum_terms_ok(rest);
        if sum_terms(terms) is Ok {
            assert forall|i: int| 0 <= i < terms.len() implies (#[trigger] parse_int(
                terms[i],
            )) is Ok by {
                if i > 0 {
                    assert(terms[i] == rest[i - 1]);
                }
            }
        }
        if forall|i: int| 0 <= i < terms.len() ==> (#[trigger] parse_int(terms[i])) is Ok {
            assert(parse_int(terms[0]) is Ok);
            assert forall|i: int| 0 <= i < rest.len() implies (#[trigger] parse_int(
                rest[i],
            )) is Ok by {
                assert(rest[i] == terms[i + 1]);
            }
        }
    }
}

/// Where a term denotes no integer, the leftmost such term decides the
/// error.
pub proof fn lemma_sum_terms_first_failure(terms: Seq<Seq<char>>, at: int)
    requires
        0 <= at < terms.len(),
        parse_int(terms[at]) is Err,
        forall|i: int| 0 <= i < at ==> (#[trigger] parse_int(terms[i])) is Ok,
    ensures
        sum_terms(terms) == Err::<int, IntErrorKind>(parse_int(terms[at])->Err_0),
    decreases terms.len(),
{
    if at > 0 {
        let rest = terms.drop_first();
        assert(parse_int(terms[0]) is Ok);
        assert(rest[at - 1] == terms[at]);
        assert forall|i: int| 0 <= i < at - 1 implies (#[trigger] parse_int(rest[i])) is Ok by {
            assert(rest[i] == terms[i + 1]);
        }
        lemma_sum_terms_first_failure(rest, at - 1);
    }
}

/// Taking one term out of a sum takes its integer off the total.
pub proof fn lemma_sum_terms_remove(terms: Seq<Seq<char>>, at: int)
    requires
        0 <= at < terms.len(),
        parse_int(terms[at]) is Ok,
        sum_terms(terms.remove(at)) is Ok,
    ensures
        sum_terms(terms) == Ok::<int, IntErrorKind>(
            parse_int(terms[at])->Ok_0 + sum_terms(terms.remove(at))->Ok_0,
        ),
    decreases terms.len(),
{
    if at == 0 {
        assert(terms.remove(0) =~= terms.drop_first());
    } else {
        let rest = terms.drop_first();
        assert(terms.remove(at)[0] == terms[0]);
        assert(terms.remove(at).drop_first() =~= rest.remove(at - 1));
        assert(rest[at - 1] == terms[at]);
        lemma_sum_terms_remove(rest, at - 1);
    }
}

/// The sum of terms does not depend on their order: terms that have a sum
/// have the same sum in any other order.
pub proof fn lemma_sum_terms_reordered(a: Seq<Seq<char>>, b: Seq<Seq<char>>)
    requires
        a.to_multiset() == b.to_multiset(),
        sum_terms(a) is Ok,
    ensures
        sum_terms(b) == sum_terms(a),
    decreases a.len(),
{
    broadcast use vstd::seq_lib::group_to_multiset_ensures;

    if a.len() == 0 {
        assert(b.len() == b.to_multiset().len());
        assert(a.len() == a.to_multiset().len());
    } else {
        let first = a[0];
        assert(a.contains(first));
        assert(b.to_multiset().count(first) > 0);
        assert(b.contains(first));
        let at = b.index_of(first);
        assert(a.drop_first() =~= a.remove(0));
        assert(a.remove(0).to_multiset() == b.remove(at).to_multiset());
        lemma_sum_terms_reordered(a.drop_first(), b.remove(at));
        lemma_sum_terms_remove(b, at);
    }
}

/// The sum of the terms of a text is, without its sign, less than ten to
/// the power of the length of the text.
pub proof fn lemma_sum_bound(s: Seq<char>, delimiter: Delimiter)
    ensures
        sum_terms(split(s, delimiter)) matches Ok(total) ==> -pow10(s.len()) < total < pow10(
            s.len(),
        ),
    decreases s.len(),
{
    lemma_split_step(s, delimiter);
    let cut = first_delimiter(s, delimiter);
    let terms = split(s, delimiter);
    lemma_parse_int_bound(terms[0]);
    if cut < s.len() {
        let rest = s.skip(cut + 1);
        lemma_sum_bound(rest, delimiter);
        lemma_pow10_sum(cut as nat, rest.len());
    } else {
        assert(sum_terms(terms.drop_first()) == Ok::<int, IntErrorKind>(0));
    }
}

/// A text of eighteen characters or fewer has no sum that `add` has no room
/// for: whoever holds such a text may call `add`.
pub proof fn lemma_short_text_fits(numbers: Seq<char>)
    requires
        numbers.len() <= 18,
    ensures
        sum_fits(add_spec(numbers)),
{
    if delimiter_known(numbers) {
        let body = body_of(numbers);
        lemma_sum_bound(body, delimiter_of(numbers));
        lemma_pow10_grows(body.len(), 18);
        assert(pow10(18) == 1_000_000_000_000_000_000) by {
            reveal_with_fuel(pow10, 19);
        }
    }
}

/// Which texts have a sum, and which error the others give. The empty text
/// has one. A text that is not empty gives `ParseDelimiterError` exactly when
/// it fails to say which delimiter it uses, `ParseIntError` exactly when it
/// says so and one of its terms denotes no integer, and has a sum exactly
/// when it says so and each of its terms denotes one.
pub proof fn lemma_add_outcomes(numbers: Seq<char>)
    ensures
        numbers.len() == 0 ==> add_spec(numbers) == Ok::<int, CalculatorError>(0),
        add_spec(numbers) == Err::<int, CalculatorError>(CalculatorError::ParseDelimiterError)
            <==> numbers.len() > 0 && !delimiter_known(numbers),
        add_spec(numbers) matches Err(CalculatorError::ParseIntError(_)) <==> numbers.len() > 0
            && delimiter_known(numbers) && exists|i: int|
            0 <= i < terms_of(numbers).len() && (#[trigger] parse_int(terms_of(numbers)[i])) is Err,
        add_spec(numbers) is Ok <==> numbers.len() == 0 || (delimiter_known(numbers) && forall|
            i: int,
        |
            0 <= i < terms_of(numbers).len() ==> (#[trigger] parse_int(terms_of(numbers)[i])) is Ok),
{
    lemma_sum_terms_ok(terms_of(numbers));
}

/// The sum of a text does not depend on the order of its terms. Of two
/// texts that hold the same terms, each as often as the other, where the
/// first is not empty and has a sum and the second says which delimiter it
/// uses, the second has the same sum.
pub proof fn lemma_add_reordered(numbers: Seq<char>, reordered: Seq<char>)
    requires
        numbers.len() > 0,
        add_spec(numbers) is Ok,
        delimiter_known(reordered),
        terms_of(numbers).to_multiset() == terms_of(reordered).to_multiset(),
    ensures
        add_spec(reordered) == add_spec(numbers),
{
    lemma_sum_terms_reordered(terms_of(numbers), terms_of(reordered));
    if reordered.len() == 0 {
        lemma_split_step(reordered, Delimiter::Default);
        assert(parse_int(terms_of(reordered)[0]) is Err);
    }
}

/// A comma and a line feed separate alike: two texts that announce no
/// delimiter and differ only in which of the two stands at a place have the
/// same terms, and so the same sum.
pub proof fn lemma_default_delimiters_alike(numbers: Seq<char>, other: Seq<char>)
    requires
        numbers.len() == other.len(),
        !declares_delimiter(numbers),
        forall|i: int|
            #![trigger numbers[i]]
            #![trigger other[i]]
            0 <= i < numbers.len() ==> numbers[i] == other[i] || (Delimiter::Default.matches(
                numbers[i],
            ) && Delimiter::Default.matches(other[i])),
    ensures
        terms_of(other) == terms_of(numbers),
        add_spec(other) == add_spec(numbers),
{
    if other.len() >= 2 {
        assert(numbers[0] == other[0] || Delimiter::Default.matches(other[0]));
        assert(numbers[1] == other[1] || Delimiter::Default.matches(other[1]));
    }
    lemma_split_alike(numbers, other, Delimiter::Default);
}

/// A delimiter at the end of a text is not passed over: the empty term
/// behind it is no number, so the text has no sum.
pub proof fn lemma_trailing_delimiter_fails(numbers: Seq<char>)
    requires
        numbers.len() > 0,
        delimiter_known(numbers),
        delimiter_of(numbers).matches(numbers.last()),
    ensures
        terms_of(numbers).last().len() == 0,
        add_spec(numbers) matches Err(CalculatorError::ParseIntError(_)),
{
    let body = body_of(numbers);
    if declares_delimiter(numbers) {
        let line_break = Delimiter::Custom('\n');
        lemma_first_where_bounds(numbers, line_break.matcher());
        let end = first_line_end(numbers);
        assert(!(line_break.matcher())(numbers[2]));
        assert((line_break.matcher())(numbers[end]));
        assert(body.last() == numbers.last());
    }
    lemma_split_trailing_delimiter(body, delimiter_of(numbers));
    let terms = terms_of(numbers);
    assert(parse_int(terms[terms.len() - 1]) is Err);
    lemma_sum_terms_ok(terms);
}

/// `add` leaves no choice: two results that meet what it promises for one
/// text are the same, so a second call returns what the first did.
pub proof fn lemma_add_deterministic(
    numbers: Seq<char>,
    first: CalculatorResult,
    second: CalculatorResult,
)
    requires
        result_model(first) == add_spec(numbers),
        result_model(second) == add_spec(numbers),
    ensures
        first == second,
{
}

} // verus!
