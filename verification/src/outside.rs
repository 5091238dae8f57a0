//! What this library takes on trust about code that it calls and does not
//! verify: `hyper`'s header values, and two functions of the standard library.
//! Every contract here is believed by the verifier, not proved.

use vstd::prelude::*;
use hyper::header::HeaderValue;
use std::time::Duration;

verus! {

/// `hyper::header::HeaderValue`, the value of one HTTP header. Nothing inside
/// it is visible to the verifier.
#[verifier::external_type_specification]
#[verifier::external_body]
pub struct ExHeaderValue(hyper::header::HeaderValue);

/// The bytes that a header value holds, in order.
pub uninterp spec fn header_bytes(value: HeaderValue) -> Seq<u8>;

/// `HeaderValue::as_bytes` hands out the bytes that the value holds, as a
/// slice that borrows from it. The contract says only that the slice is the
/// value's content, which `header_bytes` names.
pub assume_specification[ HeaderValue::as_bytes ](value: &HeaderValue) -> (bytes: &[u8])
    ensures
        bytes@ == header_bytes(*value),
;

/// The duration of `millis` milliseconds.
pub uninterp spec fn duration_of_millis(millis: u64) -> Duration;

/// `Duration::from_millis` makes the duration of the given number of
/// milliseconds. A `Duration` is opaque to the verifier, so the contract only
/// gives that duration its name.
pub assume_specification[ Duration::from_millis ](millis: u64) -> (duration: Duration)
    ensures
        duration == duration_of_millis(millis),
;

/// `String::push` appends one character to the end of the string and leaves
/// the rest as it was.
pub assume_specification[ String::push ](text: &mut String, ch: char)
    ensures
        final(text)@ == old(text)@.push(ch),
;

} // verus!
