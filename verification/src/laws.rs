//! What holds of every input, proved from the model in `grammar`. Since the
//! parser returns exactly what the model gives, each law holds of the parser.

use vstd::prelude::*;
use crate::directive::{Directive, DirectiveError};
use crate::payload::{carries_out, Payload};
use crate::grammar::{
    all_digits, decimal_value, decoded, decoded_value, faulty_at, first_fault, in_alphabet,
    is_digit, is_first_fault, lemma_decimal_value_push, lemma_first_fault,
    lemma_first_fault_exists, lemma_separator, lemma_well_formed_has_no_fault, saturate,
    separator, splits_at, well_formed, COMMA, ZERO,
};

verus! {

/// An input is accepted exactly when it matches the grammar
/// `<digits> "," <digits>`.
pub proof fn law_accepts_the_grammar(s: Seq<u8>)
    ensures
        decoded(s) is Ok <==> well_formed(s),
{
    if well_formed(s) {
        lemma_well_formed_has_no_fault(s);
    }
}

/// Two non-empty digit groups around one comma decode to the numbers that the
/// groups denote, each saturated at the largest value of its field.
pub proof fn law_well_formed_decodes(a: Seq<u8>, b: Seq<u8>)
    requires
        a.len() > 0,
        b.len() > 0,
        all_digits(a),
        all_digits(b),
    ensures
        decoded(a.push(COMMA) + b) == Ok::<Directive, DirectiveError>(
            Directive {
                delay_ms: saturate(decimal_value(a), u64::MAX as nat) as u64,
                response_bytes: saturate(decimal_value(b), u32::MAX as nat) as u32,
            },
        ),
{
    let s = a.push(COMMA) + b;
    let k = a.len() as int;
    assert(s.take(k) =~= a);
    assert(s.skip(k + 1) =~= b);
    lemma_separator(s, k);
    lemma_well_formed_has_no_fault(s);
}

/// Two non-empty digit groups around one comma, whose numbers fit the fields,
/// decode to exactly those numbers: the left one as the delay, the right one
/// as the size.
pub proof fn law_well_formed_values(a: Seq<u8>, b: Seq<u8>)
    requires
        a.len() > 0,
        b.len() > 0,
        all_digits(a),
        all_digits(b),
        decimal_value(a) <= u64::MAX,
        decimal_value(b) <= u32::MAX,
    ensures
        decoded(a.push(COMMA) + b) matches Ok(directive) && directive.delay_ms == decimal_value(a)
            && directive.response_bytes == decimal_value(b),
{
    law_well_formed_decodes(a, b);
}

/// A zero in front of a digit group does not change the number it denotes.
pub proof fn law_leading_zero(a: Seq<u8>)
    ensures
        decimal_value(seq![ZERO] + a) == decimal_value(a),
    decreases a.len(),
{
    if a.len() == 0 {
        assert(seq![ZERO] + a =~= seq![ZERO]);
        assert(seq![ZERO].drop_last() =~= Seq::<u8>::empty());
        assert(decimal_value(seq![ZERO]) == 0) by {
            reveal_with_fuel(decimal_value, 2);
        }
    } else {
        let front = a.drop_last();
        law_leading_zero(front);
        assert(seq![ZERO] + a =~= (seq![ZERO] + front).push(a.last()));
        lemma_decimal_value_push(seq![ZERO] + front, a.last());
    }
}

/// An input without a comma is rejected: as incomplete where it holds only
/// digits, and for its first other byte elsewhere.
pub proof fn law_no_comma(s: Seq<u8>)
    requires
        !s.contains(COMMA),
    ensures
        all_digits(s) ==> decoded(s) == Err::<Directive, DirectiveError>(
            DirectiveError::IncompleteDirective,
        ),
        !all_digits(s) ==> exists|m: int|
            0 <= m < s.len() && !is_digit(#[trigger] s[m]) && all_digits(s.take(m)) && decoded(s)
                == Err::<Directive, DirectiveError>(
                DirectiveError::InvalidCharacter(s[m] as char),
            ),
{
    if well_formed(s) {
        let k = separator(s);
        assert(splits_at(s, k));
        assert(s[k] == COMMA);
    }
    if all_digits(s) {
        assert forall|i: int| !faulty_at(s, i) by {
            if 0 <= i < s.len() {
                assert(is_digit(s[i]));
            }
        }
    } else {
        let w = choose|i: int| 0 <= i < s.len() && !is_digit(#[trigger] s[i]);
        assert(s[w] != COMMA);
        assert(faulty_at(s, w));
        lemma_first_fault_exists(s);
        let m = first_fault(s);
        assert(is_first_fault(s, m));
        assert(s[m] != COMMA);
        assert forall|j: int| 0 <= j < s.take(m).len() implies is_digit(#[trigger] s.take(m)[j]) by {
            assert(!faulty_at(s, j));
            assert(s[j] != COMMA);
        }
    }
}

/// An input with two commas is rejected, whatever else it holds: for the
/// second comma, or for a byte outside the alphabet that comes before it.
pub proof fn law_two_commas_rejected(s: Seq<u8>, i: int, j: int)
    requires
        0 <= i < j < s.len(),
        s[i] == COMMA,
        s[j] == COMMA,
    ensures
        decoded(s) matches Err(error) && (error == DirectiveError::MultipleSeparators
            || error is InvalidCharacter),
{
    assert(s.take(j)[i] == COMMA);
    assert(faulty_at(s, j));
}

/// An input whose second comma is preceded by nothing but digits and commas
/// is rejected for that comma.
pub proof fn law_second_comma(s: Seq<u8>, i: int, j: int)
    requires
        0 <= i < j < s.len(),
        s[i] == COMMA,
        s[j] == COMMA,
        forall|m: int| 0 <= m < j ==> in_alphabet(#[trigger] s[m]),
    ensures
        decoded(s) == Err::<Directive, DirectiveError>(DirectiveError::MultipleSeparators),
{
    assert(s.take(j)[i] == COMMA);
    assert(faulty_at(s, j));
    lemma_first_fault_exists(s);
    let f = first_fault(s);
    assert(is_first_fault(s, f));
    if j < f {
        assert(!faulty_at(s, j));
    }
    assert(in_alphabet(s[f]));
}

/// An input with a byte outside the alphabet is rejected, whatever else it
/// holds: for such a byte, or for a second comma that comes before it.
pub proof fn law_foreign_byte_rejected(s: Seq<u8>, m: int)
    requires
        0 <= m < s.len(),
        !in_alphabet(s[m]),
    ensures
        decoded(s) matches Err(error) && (error == DirectiveError::MultipleSeparators
            || error is InvalidCharacter),
{
    assert(faulty_at(s, m));
}

/// An input whose first byte outside the alphabet is preceded by at most one
/// comma is rejected for that byte, and the error carries it.
pub proof fn law_first_foreign_byte(s: Seq<u8>, m: int)
    requires
        0 <= m < s.len(),
        !in_alphabet(s[m]),
        forall|j: int| 0 <= j < m ==> in_alphabet(#[trigger] s[j]),
        forall|i: int, j: int| 0 <= i < j < m ==> !(s[i] == COMMA && s[j] == COMMA),
    ensures
        decoded(s) == Err::<Directive, DirectiveError>(
            DirectiveError::InvalidCharacter(s[m] as char),
        ),
{
    assert forall|j: int| 0 <= j < m implies !faulty_at(s, j) by {
        assert(in_alphabet(s[j]));
        if s[j] == COMMA && s.take(j).contains(COMMA) {
            let i = choose|i: int| 0 <= i < s.take(j).len() && s.take(j)[i] == COMMA;
            assert(s[i] == COMMA);
        }
    }
    assert(is_first_fault(s, m));
    lemma_first_fault(s, m);
}

/// An input of digits and at most one comma, in which a digit group is empty,
/// is incomplete: one that has no comma, starts with it or ends with it.
pub proof fn law_empty_group(s: Seq<u8>)
    requires
        forall|j: int| 0 <= j < s.len() ==> in_alphabet(#[trigger] s[j]),
        forall|i: int, j: int| 0 <= i < j < s.len() ==> !(s[i] == COMMA && s[j] == COMMA),
        !s.contains(COMMA) || s.first() == COMMA || s.last() == COMMA,
    ensures
        decoded(s) == Err::<Directive, DirectiveError>(DirectiveError::IncompleteDirective),
{
    assert forall|j: int| !faulty_at(s, j) by {
        if 0 <= j < s.len() {
            assert(in_alphabet(s[j]));
            if s[j] == COMMA && s.take(j).contains(COMMA) {
                let i = choose|i: int| 0 <= i < s.take(j).len() && s.take(j)[i] == COMMA;
                assert(s[i] == COMMA);
            }
        }
    }
    if well_formed(s) {
        let k = separator(s);
        assert(splits_at(s, k));
        assert(s[k] == COMMA);
        assert(s.contains(COMMA));
        if s.first() == COMMA {
            assert(s[0] == COMMA);
        } else {
            assert(s[s.len() - 1] == COMMA);
        }
    }
}

/// An input that is rejected as incomplete holds digits and at most one
/// comma, and one of its digit groups is empty.
pub proof fn law_incomplete_has_empty_group(s: Seq<u8>)
    requires
        decoded(s) == Err::<Directive, DirectiveError>(DirectiveError::IncompleteDirective),
    ensures
        forall|j: int| 0 <= j < s.len() ==> in_alphabet(#[trigger] s[j]),
        forall|i: int, j: int| 0 <= i < j < s.len() ==> !(s[i] == COMMA && s[j] == COMMA),
        !s.contains(COMMA) || s.first() == COMMA || s.last() == COMMA,
{
    assert forall|j: int| 0 <= j < s.len() implies in_alphabet(#[trigger] s[j]) by {
        assert(!faulty_at(s, j));
    }
    assert forall|i: int, j: int| 0 <= i < j < s.len() implies !(s[i] == COMMA && s[j]
        == COMMA) by {
        if s[i] == COMMA && s[j] == COMMA {
            assert(s.take(j)[i] == COMMA);
            assert(!faulty_at(s, j));
        }
    }
    if s.contains(COMMA) && s.first() != COMMA && s.last() != COMMA {
        let k = choose|k: int| 0 <= k < s.len() && s[k] == COMMA;
        assert forall|j: int| 0 <= j < s.take(k).len() implies is_digit(
            #[trigger] s.take(k)[j],
        ) by {
            assert(in_alphabet(s[j]));
        }
        assert forall|j: int| 0 <= j < s.skip(k + 1).len() implies is_digit(
            #[trigger] s.skip(k + 1)[j],
        ) by {
            assert(in_alphabet(s[k + 1 + j]));
        }
        assert(splits_at(s, k));
    }
}

/// A request without the header is rejected as such, and no header value, the
/// empty one included, is rejected in that way.
pub proof fn law_missing_header(s: Seq<u8>)
    ensures
        decoded_value(None) == Err::<Directive, DirectiveError>(DirectiveError::MissingHeader),
        decoded_value(Some(s)) != Err::<Directive, DirectiveError>(DirectiveError::MissingHeader),
        decoded_value(Some(Seq::<u8>::empty())) == Err::<Directive, DirectiveError>(
            DirectiveError::IncompleteDirective,
        ),
{
    law_no_comma(Seq::<u8>::empty());
}

/// One directive is carried out by one payload only.
pub proof fn law_one_payload(directive: Directive, first: Payload, second: Payload)
    requires
        carries_out(first, directive),
        carries_out(second, directive),
    ensures
        first == second,
{
}

/// Decoding is a function of the input: two results for one optional value
/// are equal.
pub proof fn law_same_input_same_result(
    value: Option<Seq<u8>>,
    first: Result<Directive, DirectiveError>,
    second: Result<Directive, DirectiveError>,
)
    requires
        first == decoded_value(value),
        second == decoded_value(value),
    ensures
        first == second,
{
}

} // verus!
