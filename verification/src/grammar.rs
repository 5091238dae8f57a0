//! The directive grammar, `<digits> "," <digits>`, as a mathematical model
//! over byte sequences.

use vstd::prelude::*;
use crate::directive::{Directive, DirectiveError};

verus! {

/// The separator between the two digit groups: `,`.
pub const COMMA: u8 = 44;

/// The smallest decimal digit: `0`.
pub const ZERO: u8 = 48;

/// The largest decimal digit: `9`.
pub const NINE: u8 = 57;

/// `b` is one of the ASCII decimal digits `0` to `9`.
pub open spec fn is_digit(b: u8) -> bool {
    ZERO <= b <= NINE
}

/// `b` belongs to the alphabet of the grammar: a decimal digit or the comma.
pub open spec fn in_alphabet(b: u8) -> bool {
    is_digit(b) || b == COMMA
}

/// Every byte of `s` is a decimal digit. Holds of the empty sequence.
pub open spec fn all_digits(s: Seq<u8>) -> bool {
    forall|i: int| 0 <= i < s.len() ==> is_digit(#[trigger] s[i])
}

/// The number that a run of decimal digits denotes, most significant digit
/// first. Leading zeros do not change it; the empty run denotes 0.
pub open spec fn decimal_value(s: Seq<u8>) -> nat
    decreases s.len(),
{
    if s.len() == 0 {
        0
    } else {
        decimal_value(s.drop_last()) * 10 + (s.last() - ZERO) as nat
    }
}

/// `v` where it does not exceed `limit`, else `limit`: what a field holds of a
/// digit group whose number does not fit it.
pub open spec fn saturate(v: nat, limit: nat) -> nat {
    if v > limit {
        limit
    } else {
        v
    }
}

/// `s` is a directive: a non-empty digit group, one comma at `k`, a non-empty
/// digit group.
pub open spec fn splits_at(s: Seq<u8>, k: int) -> bool {
    &&& 0 < k < s.len() - 1
    &&& s[k] == COMMA
    &&& all_digits(s.take(k))
    &&& all_digits(s.skip(k + 1))
}

/// `s` matches the grammar `<digits> "," <digits>`.
pub open spec fn well_formed(s: Seq<u8>) -> bool {
    exists|k: int| splits_at(s, k)
}

/// The position of the comma in a well-formed `s`.
pub open spec fn separator(s: Seq<u8>) -> int {
    choose|k: int| splits_at(s, k)
}

/// A left-to-right scan cannot go past position `i`: the byte there is neither
/// a digit nor a comma, or it is a comma that follows an earlier one.
pub open spec fn faulty_at(s: Seq<u8>, i: int) -> bool {
    &&& 0 <= i < s.len()
    &&& !is_digit(s[i])
    &&& (s[i] == COMMA ==> s.take(i).contains(COMMA))
}

/// Some byte of `s` stops the scan.
pub open spec fn has_fault(s: Seq<u8>) -> bool {
    exists|i: int| faulty_at(s, i)
}

/// `i` is the first position that stops the scan of `s`.
pub open spec fn is_first_fault(s: Seq<u8>, i: int) -> bool {
    &&& faulty_at(s, i)
    &&& forall|j: int| 0 <= j < i ==> !faulty_at(s, j)
}

/// The first position that stops the scan of an `s` that has one.
pub open spec fn first_fault(s: Seq<u8>) -> int {
    choose|i: int| is_first_fault(s, i)
}

/// The two fields that a well-formed `s` denotes: the left group as a delay in
/// milliseconds, the right group as a number of bytes, each saturated at the
/// largest value of its field.
pub open spec fn denoted(s: Seq<u8>) -> Directive {
    let k = separator(s);
    Directive {
        delay_ms: saturate(decimal_value(s.take(k)), u64::MAX as nat) as u64,
        response_bytes: saturate(decimal_value(s.skip(k + 1)), u32::MAX as nat) as u32,
    }
}

/// What the bytes of a header value decode to.
///
/// A scan that meets a byte outside the grammar reports the first such byte:
/// a second comma as `MultipleSeparators`, any other as `InvalidCharacter`.
/// Bytes that hold digits and at most one comma, without a digit on both sides
/// of a comma, are an `IncompleteDirective`. All other inputs are well formed.
pub open spec fn decoded(s: Seq<u8>) -> Result<Directive, DirectiveError> {
    if has_fault(s) {
        let b = s[first_fault(s)];
        if b == COMMA {
            Err(DirectiveError::MultipleSeparators)
        } else {
            Err(DirectiveError::InvalidCharacter(b as char))
        }
    } else if well_formed(s) {
        Ok(denoted(s))
    } else {
        Err(DirectiveError::IncompleteDirective)
    }
}

/// What an optional header value decodes to: an absent one is an error of its
/// own, distinct from every error of a present one.
pub open spec fn decoded_value(value: Option<Seq<u8>>) -> Result<Directive, DirectiveError> {
    match value {
        None => Err(DirectiveError::MissingHeader),
        Some(s) => decoded(s),
    }
}

/// A position that satisfies `is_first_fault` is the one that `first_fault`
/// names.
pub proof fn lemma_first_fault(s: Seq<u8>, i: int)
    requires
        is_first_fault(s, i),
    ensures
        has_fault(s),
        first_fault(s) == i,
{
    let j = first_fault(s);
    assert(is_first_fault(s, j));
    if j < i {
        assert(!faulty_at(s, j));
    } else if i < j {
        assert(!faulty_at(s, i));
    }
}

/// A sequence with a fault has a first one.
pub proof fn lemma_first_fault_exists(s: Seq<u8>)
    requires
        has_fault(s),
    ensures
        is_first_fault(s, first_fault(s)),
{
    let w = choose|i: int| faulty_at(s, i);
    lemma_least_fault(s, w);
}

/// Below any fault lies a first fault.
proof fn lemma_least_fault(s: Seq<u8>, w: int)
    requires
        faulty_at(s, w),
    ensures
        exists|i: int| 0 <= i <= w && is_first_fault(s, i),
    decreases w,
{
    if exists|j: int| 0 <= j < w && faulty_at(s, j) {
        let j = choose|j: int| 0 <= j < w && faulty_at(s, j);
        lemma_least_fault(s, j);
    } else {
        assert(is_first_fault(s, w));
    }
}

/// A directive splits at one position only.
pub proof fn lemma_separator(s: Seq<u8>, k: int)
    requires
        splits_at(s, k),
    ensures
        well_formed(s),
        separator(s) == k,
{
    let j = separator(s);
    assert(splits_at(s, j));
    if j < k {
        assert(s.take(k)[j] == s[j]);
    } else if k < j {
        assert(s.skip(k + 1)[j - k - 1] == s[j]);
    }
}

/// A well-formed sequence holds nothing that stops the scan.
pub proof fn lemma_well_formed_has_no_fault(s: Seq<u8>)
    requires
        well_formed(s),
    ensures
        !has_fault(s),
{
    let k = separator(s);
    assert(splits_at(s, k));
    assert forall|i: int| !faulty_at(s, i) by {
        if 0 <= i < k {
            assert(s.take(k)[i] == s[i]);
        } else if k < i < s.len() {
            assert(s.skip(k + 1)[i - k - 1] == s[i]);
        } else if i == k {
            if s.take(k).contains(COMMA) {
                let j = choose|j: int| 0 <= j < s.take(k).len() && s.take(k)[j] == COMMA;
                assert(is_digit(s.take(k)[j]));
            }
        }
    }
}

/// One more digit at the end of a run multiplies its number by ten and adds
/// the digit.
pub proof fn lemma_decimal_value_push(s: Seq<u8>, b: u8)
    ensures
        decimal_value(s.push(b)) == decimal_value(s) * 10 + (b - ZERO) as nat,
{
    assert(s.push(b).drop_last() =~= s);
}

/// Saturating after each digit gives what saturating once at the end gives.
pub proof fn lemma_saturate_step(v: nat, d: nat, limit: nat)
    ensures
        saturate(saturate(v, limit) * 10 + d, limit) == saturate(v * 10 + d, limit),
{
}

} // verus!
