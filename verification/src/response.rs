//! Raw response payloads and the typed result holder.

use vstd::prelude::*;

use crate::decode::JsonDecode;

verus! {

/// The transport-level payload of a completed request: the textual body, if
/// the transport delivered one. Produced by the transport collaborator and
/// read-only to the correlation core.
#[derive(Debug, PartialEq, Eq)]
pub struct RawResponse {
    /// The response body as text, if the body was textual.
    pub text: Option<String>,
}

impl Clone for RawResponse {
    fn clone(&self) -> (r: Self)
        ensures
            r == *self,
    {
        let text = match &self.text {
            Some(s) => Some(s.clone()),
            None => None,
        };
        RawResponse { text }
    }
}

/// The finalized outcome of a typed request: either the raw success payload
/// or the transport's error message. Installed exactly once per completion by
/// the transition watcher, and immutable thereafter.
#[derive(Debug, PartialEq, Eq)]
pub struct TypedResponse {
    /// `Ok` with the raw payload on transport success, `Err` with the
    /// transport's message on transport failure.
    pub result: Result<RawResponse, String>,
}

impl Clone for TypedResponse {
    fn clone(&self) -> (r: Self)
        ensures
            r == *self,
    {
        let result = match &self.result {
            Ok(body) => Ok(body.clone()),
            Err(msg) => Err(msg.clone()),
        };
        TypedResponse { result }
    }
}

/// What the decode accessor yields on a given holder: the decoded value only
/// when the transport succeeded, the payload had text, and that text decodes
/// as `T`; absence otherwise. The three failure causes are deliberately
/// indistinguishable here.
pub open spec fn spec_parse<T: JsonDecode>(r: TypedResponse) -> Option<T> {
    match r.result {
        Ok(body) => match body.text {
            Some(s) => T::spec_decode(s@),
            None => None,
        },
        Err(_) => None,
    }
}

impl TypedResponse {
    /// Decode the stored payload into `T` on demand. Returns `None` on
    /// transport failure, on a payload without text, and on a decode error
    /// alike; callers that must tell these apart inspect `result` directly.
    pub fn parse<T: JsonDecode>(&self) -> (r: Option<T>)
        ensures
            r == spec_parse::<T>(*self),
    {
        if let Ok(response) = &self.result {
            match &response.text {
                Some(s) => T::decode_json(s.as_str()),
                None => None,
            }
        } else {
            None
        }
    }
}

/// The decode accessor is a pure function of the holder: two reads of an
/// unchanged holder yield equal values.
pub proof fn lemma_parse_idempotent<T: JsonDecode>(
    r: TypedResponse,
    v1: Option<T>,
    v2: Option<T>,
)
    requires
        v1 == spec_parse::<T>(r),
        v2 == spec_parse::<T>(r),
    ensures
        v1 == v2,
{
}

/// A holder whose `result` is `Err` yields absence from the decode accessor,
/// whatever the message.
pub proof fn lemma_parse_of_failure<T: JsonDecode>(r: TypedResponse)
    requires
        r.result is Err,
    ensures
        spec_parse::<T>(r) is None,
{
}

/// Round trip: a holder built from a success payload whose text is a valid
/// encoding of `v` decodes back to exactly `v`.
pub proof fn lemma_parse_round_trip<T: JsonDecode>(body: RawResponse, text: String, v: T)
    requires
        body.text == Some(text),
        T::spec_decode(text@) == Some(v),
    ensures
        spec_parse::<T>(TypedResponse { result: Ok(body) }) == Some(v),
{
}

} // verus!
