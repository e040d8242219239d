//! Structured decoding of response text into strongly typed values.
//!
//! The correlation core is generic over the result type only through this
//! trait: a type that can be decoded from JSON text implements [`JsonDecode`],
//! and the decode accessor of a typed result holder goes through it. The
//! decoding itself is done by `serde_json`; each implementation names the
//! outcome of the underlying parse with an uninterpreted spec function, so
//! that contracts up the stack can speak about it exactly.

use vstd::prelude::*;

verus! {

/// A type that can be decoded from JSON text.
///
/// `spec_decode` is the mathematical account of the decoding: `decode_json`
/// must return exactly that value. Implementations for foreign data formats
/// typically name the decoder's outcome with an uninterpreted spec function.
pub trait JsonDecode: Sized {
    /// What decoding the given text yields, if anything.
    spec fn spec_decode(s: Seq<char>) -> Option<Self>;

    /// Decode the given text, returning `None` on any decode error.
    fn decode_json(s: &str) -> (r: Option<Self>)
        ensures
            r == Self::spec_decode(s@),
    ;
}

/// The outcome of JSON-decoding text as a `u32`; determined by the text alone.
pub uninterp spec fn json_decode_u32(s: Seq<char>) -> Option<u32>;

/// Relies on `serde_json::from_str::<u32>`: the outcome is a function of the
/// input text alone.
#[verifier::external_body]
fn parse_json_u32(s: &str) -> (r: Option<u32>)
    ensures
        r == json_decode_u32(s@),
{
    serde_json::from_str::<u32>(s).ok()
}

impl JsonDecode for u32 {
    open spec fn spec_decode(s: Seq<char>) -> Option<u32> {
        json_decode_u32(s)
    }

    fn decode_json(s: &str) -> (r: Option<u32>) {
        parse_json_u32(s)
    }
}

/// The outcome of JSON-decoding text as an `i64`; determined by the text alone.
pub uninterp spec fn json_decode_i64(s: Seq<char>) -> Option<i64>;

/// Relies on `serde_json::from_str::<i64>`: the outcome is a function of the
/// input text alone.
#[verifier::external_body]
fn parse_json_i64(s: &str) -> (r: Option<i64>)
    ensures
        r == json_decode_i64(s@),
{
    serde_json::from_str::<i64>(s).ok()
}

impl JsonDecode for i64 {
    open spec fn spec_decode(s: Seq<char>) -> Option<i64> {
        json_decode_i64(s)
    }

    fn decode_json(s: &str) -> (r: Option<i64>) {
        parse_json_i64(s)
    }
}

/// The outcome of JSON-decoding text as a `String`; determined by the text alone.
pub uninterp spec fn json_decode_string(s: Seq<char>) -> Option<String>;

/// Relies on `serde_json::from_str::<String>`: the outcome is a function of
/// the input text alone.
#[verifier::external_body]
fn parse_json_string(s: &str) -> (r: Option<String>)
    ensures
        r == json_decode_string(s@),
{
    serde_json::from_str::<String>(s).ok()
}

impl JsonDecode for String {
    open spec fn spec_decode(s: Seq<char>) -> Option<String> {
        json_decode_string(s)
    }

    fn decode_json(s: &str) -> (r: Option<String>) {
        parse_json_string(s)
    }
}

} // verus!
