//! Whole frames: a message's payload, stuffed, with the zero byte that ends it.

use vstd::prelude::*;
use crate::package::{DecodeError, Package, PackageView, outcome_view};
use crate::payload::{
    decode_payload, encode_payload, fits, lemma_payload_round_trip, parse_payload, payload_bytes,
};
use crate::stuffing::{
    lemma_stuff_no_zero, lemma_stuffing_round_trip, stuff, stuff_bytes, unstuff, unstuff_bytes,
};

verus! {

/// The stuffed payload of a message: a frame without the zero that ends it.
pub open spec fn span_bytes(package: PackageView) -> Seq<u8> {
    stuff(payload_bytes(package))
}

/// The frame of a message as it goes on the wire.
pub open spec fn frame_bytes(package: PackageView) -> Seq<u8> {
    span_bytes(package).push(0u8)
}

/// What the span of a frame decodes to. `span` is what stands before the zero
/// that ends the frame.
pub open spec fn decode_frame(span: Seq<u8>) -> Result<PackageView, DecodeError> {
    match unstuff(span) {
        None => Err(DecodeError::BadEncoding),
        Some(payload) => parse_payload(payload),
    }
}

/// The span of a message holds a byte, holds no zero, and decodes to the
/// message.
pub proof fn lemma_span_round_trip(package: PackageView)
    requires
        fits(package),
    ensures
        span_bytes(package).len() >= 1,
        forall|i: int| 0 <= i < span_bytes(package).len() ==> span_bytes(package)[i] != 0,
        decode_frame(span_bytes(package)) == Ok::<PackageView, DecodeError>(package),
{
    lemma_stuff_no_zero(payload_bytes(package));
    lemma_stuffing_round_trip(payload_bytes(package));
    lemma_payload_round_trip(package);
}

/// Two messages with the same span are the same message.
pub proof fn lemma_spans_tell_messages_apart(first: PackageView, second: PackageView)
    requires
        fits(first),
        fits(second),
        span_bytes(first) == span_bytes(second),
    ensures
        first == second,
{
    lemma_span_round_trip(first);
    lemma_span_round_trip(second);
}

/// The frame of `package`, ready to be written to the link: its span, which
/// holds no zero and decodes to `package`, and the zero that ends it.
pub fn encode(package: &Package) -> (out: Vec<u8>)
    ensures
        out@ == frame_bytes(package@),
        fits(package@),
        decode_frame(span_bytes(package@)) == Ok::<PackageView, DecodeError>(package@),
{
    let payload = encode_payload(package);
    let mut out = stuff_bytes(payload.as_slice());
    out.push(0);
    proof {
        lemma_span_round_trip(package@);
    }
    out
}

/// Decodes the span of one frame: the bytes before the zero that ends it.
pub fn decode(span: &[u8]) -> (r: Result<Package, DecodeError>)
    ensures
        outcome_view(r) == decode_frame(span@),
{
    match unstuff_bytes(span) {
        None => Err(DecodeError::BadEncoding),
        Some(payload) => decode_payload(payload.as_slice()),
    }
}

} // verus!
