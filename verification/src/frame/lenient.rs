//! Frames decoded without the DRISL rules.
//!
//! Any two CBOR objects that the decoder takes make a frame here; only the
//! fields for routing and group bookkeeping are looked at.

use vstd::prelude::*;

use crate::cbor;
use crate::cbor::{decode_item, Cbor, Tree};
use crate::drisl;
use crate::frame;
use crate::frame::{read_fields, Fields, FrameError, Refusal};

verus! {

/// Minimally decoded view of one firehose frame. `raw` is the original wire
/// bytes (header + payload), suitable for byte-exact republication.
#[derive(Debug, Clone)]
pub struct Frame {
    /// Frame operation: 1 = message, -1 = error.
    pub op: i64,
    /// Message type with leading '#' (e.g. "#commit"), present when op == 1.
    pub t: Option<String>,
    /// Sequence number, present on all at-sync message payloads.
    pub seq: Option<i64>,
    pub raw: Vec<u8>,
}

/// The header and the payload of a frame, settled: what the decoder takes first,
/// and what it takes from there on. Where it fails, its own words are left out.
pub open spec fn decoded(raw: Seq<u8>) -> Result<(Tree, Tree), Refusal> {
    match cbor::cbor_item(raw) {
        None => Err(Refusal::HeaderCbor(Seq::empty())),
        Some((header, middle)) => match cbor::cbor_item(raw.skip(middle as int)) {
            None => Err(Refusal::PayloadCbor(Seq::empty())),
            Some((payload, taken)) => if middle + taken != raw.len() {
                Err(
                    Refusal::Trailing {
                        extra: raw.len() - middle - taken,
                        total: raw.len() as int,
                    },
                )
            } else {
                Ok((header, payload))
            },
        },
    }
}

/// The fields of a frame.
pub open spec fn parsed(raw: Seq<u8>) -> Result<Fields, Refusal> {
    match decoded(raw) {
        Ok((header, payload)) => frame::fields_of(header, payload),
        Err(refusal) => Err(refusal),
    }
}

/// The fields of a frame do not depend on the bits of a NaN.
pub proof fn lemma_settled_fields(header: Tree, payload: Tree)
    ensures
        frame::fields_of(cbor::settled(header), cbor::settled(payload)) == frame::fields_of(
            header,
            payload,
        ),
{
    cbor::lemma_settled_field(header, "op"@);
    cbor::lemma_settled_field(header, "t"@);
    cbor::lemma_settled_field(payload, "seq"@);
}

impl Frame {
    /// Decode the two CBOR objects (header, payload) of a wire frame. What is
    /// a frame under the DRISL rules is the same frame here.
    pub fn decode(raw: &[u8]) -> (r: Result<(Cbor, Cbor), FrameError>)
        ensures
            match (r, decoded(raw@)) {
                (Ok((header, payload)), Ok((h, p))) => {
                    &&& cbor::settled(header@) == h
                    &&& cbor::settled(payload@) == p
                },
                (Err(e), Err(refusal)) => e@.in_short() == refusal,
                _ => false,
            },
            frame::decoded(raw@) matches Ok((h, p)) ==> {
                r matches Ok((header, payload)) && header@ == h && payload@ == p
            },
    {
        let (header, middle) = match decode_item(raw) {
            Ok(first) => first,
            Err(cause) => {
                return Err(FrameError::HeaderCbor(cause));
            },
        };
        let (_, rest) = raw.split_at(middle);
        proof {
            assert(rest@ =~= raw@.skip(middle as int));
            if frame::decoded(raw@) is Ok {
                drisl::laws::law_item_moves(raw@, middle as int, 0);
            }
        }
        let (payload, taken) = match decode_item(rest) {
            Ok(second) => second,
            Err(cause) => {
                return Err(FrameError::PayloadCbor(cause));
            },
        };
        let extra = rest.len() - taken;
        if extra != 0 {
            return Err(FrameError::Trailing { extra, total: raw.len() });
        }
        Ok((header, payload))
    }

    /// Decode a wire frame and read its fields; its bytes are kept as they
    /// are. What parses under the DRISL rules parses the same here.
    pub fn parse(raw: Vec<u8>) -> (r: Result<Frame, FrameError>)
        ensures
            match (r, parsed(raw@)) {
                (Ok(frame), Ok(fields)) => {
                    &&& frame::held(frame.op, frame.t, frame.seq) == fields
                    &&& frame.raw@ == raw@
                },
                (Err(e), Err(refusal)) => e@.in_short() == refusal,
                _ => false,
            },
            frame::parsed(raw@) is Ok ==> parsed(raw@) == frame::parsed(raw@),
    {
        let (header, payload) = Frame::decode(raw.as_slice())?;
        proof {
            lemma_settled_fields(header@, payload@);
        }
        let (op, t, seq) = read_fields(&header, &payload)?;
        Ok(Frame { op, t, seq, raw })
    }
}

} // verus!
