//! The directive and the single-pass parser that decodes it.

use vstd::prelude::*;
use crate::grammar::{
    all_digits, decimal_value, decoded, decoded_value, faulty_at, has_fault, is_digit,
    lemma_decimal_value_push, lemma_first_fault, lemma_saturate_step, lemma_separator, saturate,
    splits_at, well_formed, COMMA, NINE, ZERO,
};

verus! {

/// The instruction that a request carries: how long to wait, and how many
/// bytes to answer with.
#[derive(Debug, Clone, Copy, PartialEq, Eq, Structural)]
pub struct Directive {
    /// The delay before the response, in milliseconds.
    pub delay_ms: u64,
    /// The length of the response body, in bytes.
    pub response_bytes: u32,
}

/// Why a header value is no directive.
#[derive(Debug, Clone, Copy, PartialEq, Eq, Structural)]
pub enum DirectiveError {
    /// The request has no directive header at all.
    MissingHeader,
    /// A second comma was met.
    MultipleSeparators,
    /// A byte that is neither a decimal digit nor a comma was met.
    InvalidCharacter(char),
    /// One of the two digit groups, or both, or the comma, is missing.
    IncompleteDirective,
}

impl DirectiveError {
    /// The text of `message`.
    pub open spec fn message_text(self) -> Seq<char> {
        match self {
            DirectiveError::MissingHeader => "Custom Attributes header not present"@,
            DirectiveError::MultipleSeparators => "Comma already found"@,
            DirectiveError::InvalidCharacter(ch) => "Invalid char found: '"@.push(ch) + "'"@,
            DirectiveError::IncompleteDirective =>
                "Must specify both response size and sleep time separated by a comma"@,
        }
    }

    /// The error in words, fit for the body of a client-error response.
    pub fn message(&self) -> (text: String)
        ensures
            text@ == self.message_text(),
    {
        match self {
            DirectiveError::MissingHeader => "Custom Attributes header not present".to_owned(),
            DirectiveError::MultipleSeparators => "Comma already found".to_owned(),
            DirectiveError::InvalidCharacter(ch) => {
                let mut text = "Invalid char found: '".to_owned();
                text.push(*ch);
                text.append("'");
                text
            },
            DirectiveError::IncompleteDirective =>
                "Must specify both response size and sleep time separated by a comma".to_owned(),
        }
    }
}

/// Appends the decimal digit `digit` to the number `acc`, saturating at
/// `limit`.
fn push_digit(acc: u64, digit: u8, limit: u64) -> (r: u64)
    requires
        digit <= 9,
    ensures
        r == saturate(acc as nat * 10 + digit as nat, limit as nat),
{
    let wide: u128 = acc as u128 * 10 + digit as u128;
    if wide > limit as u128 {
        limit
    } else {
        wide as u64
    }
}

impl Directive {
    /// Decodes the bytes of a header value in one pass from left to right.
    ///
    /// A digit group whose number exceeds its field saturates: the delay at
    /// `u64::MAX` milliseconds, the size at `u32::MAX` bytes.
    pub fn from_bytes(bytes: &[u8]) -> (r: Result<Directive, DirectiveError>)
        ensures
            r == decoded(bytes@),
    {
        let ghost s = bytes@;
        let mut comma_found = false;
        let mut delay: u64 = 0;
        let mut delay_seen = false;
        let mut size: u64 = 0;
        let mut size_seen = false;
        let ghost mut k: int = 0;
        let mut i: usize = 0;
        while i < bytes.len()
            invariant
                s == bytes@,
                0 <= i <= s.len(),
                forall|j: int| 0 <= j < i ==> !faulty_at(s, j),
                !comma_found ==> {
                    &&& all_digits(s.take(i as int))
                    &&& delay == saturate(decimal_value(s.take(i as int)), u64::MAX as nat)
                    &&& delay_seen == (i > 0)
                    &&& !size_seen
                    &&& size == 0
                },
                comma_found ==> {
                    &&& 0 <= k < i
                    &&& s[k] == COMMA
                    &&& all_digits(s.take(k))
                    &&& all_digits(s.subrange(k + 1, i as int))
                    &&& delay == saturate(decimal_value(s.take(k)), u64::MAX as nat)
                    &&& delay_seen == (k > 0)
                    &&& size == saturate(
                        decimal_value(s.subrange(k + 1, i as int)),
                        u32::MAX as nat,
                    )
                    &&& size_seen == (i > k + 1)
                },
            decreases s.len() - i,
        {
            let b = bytes[i];
            if b == COMMA {
                if comma_found {
                    proof {
                        assert(s.take(i as int)[k] == COMMA);
                        lemma_first_fault(s, i as int);
                    }
                    return Err(DirectiveError::MultipleSeparators);
                }
                proof {
                    k = i as int;
                    assert(s.subrange(k + 1, i + 1) =~= Seq::<u8>::empty());
                    if s.take(i as int).contains(COMMA) {
                        let j = choose|j: int|
                            0 <= j < s.take(i as int).len() && s.take(i as int)[j] == COMMA;
                        assert(is_digit(s.take(i as int)[j]));
                    }
                }
                comma_found = true;
            } else if b < ZERO || b > NINE {
                proof {
                    lemma_first_fault(s, i as int);
                }
                return Err(DirectiveError::InvalidCharacter(b as char));
            } else {
                let digit: u8 = b - ZERO;
                if comma_found {
                    proof {
                        let run = s.subrange(k + 1, i as int);
                        assert(s.subrange(k + 1, i + 1) =~= run.push(b));
                        lemma_decimal_value_push(run, b);
                        lemma_saturate_step(decimal_value(run), digit as nat, u32::MAX as nat);
                    }
                    size = push_digit(size, digit, u32::MAX as u64);
                    size_seen = true;
                } else {
                    proof {
                        let run = s.take(i as int);
                        assert(s.take(i + 1) =~= run.push(b));
                        lemma_decimal_value_push(run, b);
                        lemma_saturate_step(decimal_value(run), digit as nat, u64::MAX as nat);
                    }
                    delay = push_digit(delay, digit, u64::MAX);
                    delay_seen = true;
                }
            }
            i += 1;
        }
        proof {
            assert(!has_fault(s));
            assert(s.take(s.len() as int) =~= s);
        }
        if comma_found && delay_seen && size_seen {
            proof {
                assert(s.skip(k + 1) =~= s.subrange(k + 1, s.len() as int));
                lemma_separator(s, k);
            }
            Ok(Directive { delay_ms: delay, response_bytes: size as u32 })
        } else {
            proof {
                if well_formed(s) {
                    let j = choose|j: int| splits_at(s, j);
                    if comma_found {
                        if j < k {
                            assert(s.take(k)[j] == s[j]);
                        } else if k < j {
                            assert(s.subrange(k + 1, s.len() as int)[j - k - 1] == s[j]);
                        }
                    } else {
                        assert(is_digit(s[j]));
                    }
                }
            }
            Err(DirectiveError::IncompleteDirective)
        }
    }

    /// Decodes an optional header value: `None` stands for a request without
    /// the header, which is not the same as a header with an empty value.
    pub fn from_value(value: Option<&[u8]>) -> (r: Result<Directive, DirectiveError>)
        ensures
            r == decoded_value(
                match value {
                    Some(bytes) => Some(bytes@),
                    None => None,
                },
            ),
    {
        match value {
            None => Err(DirectiveError::MissingHeader),
            Some(bytes) => Directive::from_bytes(bytes),
        }
    }
}

} // verus!
