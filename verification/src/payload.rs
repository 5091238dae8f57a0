//! The directive as the endpoint consumes it: a duration to sleep and a body
//! size, decoded from a header value.

use vstd::prelude::*;
use hyper::header::HeaderValue;
use std::time::Duration;
use crate::directive::{Directive, DirectiveError};
use crate::grammar::decoded_value;
use crate::outside::{duration_of_millis, header_bytes};

verus! {

/// What to do for one invocation: sleep for `sleep_time`, then answer with
/// `response_size` bytes.
#[derive(Debug)]
pub struct Payload {
    /// The length of the response body, in bytes.
    pub response_size: u32,
    /// How long to wait before the response.
    pub sleep_time: Duration,
}

/// The payload that carries out `directive`.
pub open spec fn carries_out(payload: Payload, directive: Directive) -> bool {
    &&& payload.response_size == directive.response_bytes
    &&& payload.sleep_time == duration_of_millis(directive.delay_ms)
}

/// The content of an optional header value.
pub open spec fn content(val: Option<&HeaderValue>) -> Option<Seq<u8>> {
    match val {
        Some(value) => Some(header_bytes(*value)),
        None => None,
    }
}

impl Payload {
    /// The payload of a decoded directive, or the message of the error.
    pub fn from_decoded(decoded: Result<Directive, DirectiveError>) -> (r: Result<Payload, String>)
        ensures
            match decoded {
                Ok(directive) => r matches Ok(payload) && carries_out(payload, directive),
                Err(error) => r matches Err(text) && text@ == error.message_text(),
            },
    {
        match decoded {
            Ok(directive) => Ok(
                Payload {
                    response_size: directive.response_bytes,
                    sleep_time: Duration::from_millis(directive.delay_ms),
                },
            ),
            Err(error) => Err(error.message()),
        }
    }

    /// Decodes the directive header of a request; `None` stands for a request
    /// without it. An error is the message to answer the client with.
    pub fn from_header(val: Option<&HeaderValue>) -> (r: Result<Payload, String>)
        ensures
            match decoded_value(content(val)) {
                Ok(directive) => r matches Ok(payload) && carries_out(payload, directive),
                Err(error) => r matches Err(text) && text@ == error.message_text(),
            },
    {
        match val {
            None => Payload::from_decoded(Err(DirectiveError::MissingHeader)),
            Some(value) => Payload::from_decoded(Directive::from_bytes(value.as_bytes())),
        }
    }
}

} // verus!
