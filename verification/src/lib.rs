//! Decoding of the two-field directive that a load-testing endpoint reads from
//! a request header: `<delay-ms>,<response-bytes>`.
//!
//! The grammar and the value of every input are defined in [`grammar`]; the
//! executable single-pass parser in [`directive`] is proved to compute exactly
//! that value. [`laws`] states, and proves from the model, what holds of every
//! input. [`outside`] holds the few contracts that are taken on trust.

pub mod grammar;
pub mod directive;
pub mod outside;
pub mod payload;
pub mod endpoint;
pub mod laws;

pub use directive::{Directive, DirectiveError};
pub use endpoint::Endpoint;
pub use payload::Payload;
