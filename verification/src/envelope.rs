//! The value envelope: a value together with the timestamp that orders its writes.
//!
//! The timestamp is a sequence number that the writing channel assigns, not a time of day.
//! The store keeps, of two writes to one key, the one with the higher timestamp; nothing in
//! this library compares timestamps.

use crate::error::Malformed;
use crate::field::{
    field_prefix, lemma_bytes_field_round_trip, lemma_field_prefix_bounds,
    lemma_varint_field_round_trip, optional_bytes_field, optional_varint_field,
    put_optional_bytes_field, put_optional_varint_field, take_field, Field, FieldValue, Token,
};
use crate::wire::{is_rest_of, NESTING_BUDGET};
use vstd::prelude::*;

verus! {

/// Tag of the timestamp, an integer field.
pub const ENVELOPE_TIMESTAMP: u32 = 1;

/// Tag of the value, a bytes field.
pub const ENVELOPE_VALUE: u32 = 2;

/// A value and the timestamp of its write.
#[derive(Debug, Clone, PartialEq, Eq)]
pub struct ValueEnvelope {
    pub timestamp: u64,
    pub value: Vec<u8>,
}

/// What a value envelope holds.
pub struct EnvelopeView {
    pub timestamp: u64,
    pub value: Seq<u8>,
}

impl View for ValueEnvelope {
    type V = EnvelopeView;

    open spec fn view(&self) -> EnvelopeView {
        EnvelopeView { timestamp: self.timestamp, value: self.value@ }
    }
}

/// The envelope in which no field is set.
pub open spec fn empty_envelope() -> EnvelopeView {
    EnvelopeView { timestamp: 0, value: Seq::empty() }
}

/// The wire form of an envelope: the timestamp, then the value, each left out where it is
/// zero or empty.
pub open spec fn envelope_bytes(e: EnvelopeView) -> Seq<u8> {
    optional_varint_field(ENVELOPE_TIMESTAMP, e.timestamp) + optional_bytes_field(
        ENVELOPE_VALUE,
        e.value,
    )
}

/// The envelope `acc` after the field `f` was read: a field with a known tag sets its part
/// and has to have that part's wire type, a field with another tag changes nothing.
pub open spec fn envelope_merge(acc: EnvelopeView, f: Field) -> Option<EnvelopeView> {
    if f.tag == ENVELOPE_TIMESTAMP {
        match f.value {
            FieldValue::Varint(v) => Some(EnvelopeView { timestamp: v, ..acc }),
            _ => None,
        }
    } else if f.tag == ENVELOPE_VALUE {
        match f.value {
            FieldValue::Bytes(b) => Some(EnvelopeView { value: b, ..acc }),
            _ => None,
        }
    } else {
        Some(acc)
    }
}

/// The envelope `acc` after all the fields in `s` were read, one after the other.
pub open spec fn envelope_fold(s: Seq<u8>, acc: EnvelopeView) -> Option<EnvelopeView>
    decreases s.len(),
{
    if s.len() == 0 {
        Some(acc)
    } else {
        match field_prefix(s, NESTING_BUDGET as nat) {
            Some((f, n)) => if 0 < n <= s.len() {
                match envelope_merge(acc, f) {
                    Some(next) => envelope_fold(s.skip(n as int), next),
                    None => None,
                }
            } else {
                None
            },
            None => None,
        }
    }
}

/// The envelope that the bytes `s` hold, if they are the wire form of one.
pub open spec fn envelope_parse(s: Seq<u8>) -> Option<EnvelopeView> {
    envelope_fold(s, empty_envelope())
}

/// Reading an integer field and what follows it is merging the field, then reading what
/// follows.
pub proof fn lemma_envelope_fold_varint(tag: u32, v: u64, rest: Seq<u8>, acc: EnvelopeView)
    requires
        1 <= tag < crate::wire::TAG_LIMIT,
    ensures
        envelope_fold(optional_varint_field(tag, v) + rest, acc) == if v == 0 {
            envelope_fold(rest, acc)
        } else {
            match envelope_merge(acc, Field { tag, value: FieldValue::Varint(v) }) {
                Some(next) => envelope_fold(rest, next),
                None => None,
            }
        },
{
    let s = optional_varint_field(tag, v) + rest;
    if v == 0 {
        assert(s =~= rest);
    } else {
        lemma_varint_field_round_trip(tag, v, rest, NESTING_BUDGET as nat);
        lemma_field_prefix_bounds(s, NESTING_BUDGET as nat);
        assert(s.skip(optional_varint_field(tag, v).len() as int) =~= rest);
    }
}

/// Reading a bytes field and what follows it is merging the field, then reading what
/// follows.
pub proof fn lemma_envelope_fold_bytes(tag: u32, b: Seq<u8>, rest: Seq<u8>, acc: EnvelopeView)
    requires
        1 <= tag < crate::wire::TAG_LIMIT,
        b.len() <= u64::MAX,
    ensures
        envelope_fold(optional_bytes_field(tag, b) + rest, acc) == if b.len() == 0 {
            envelope_fold(rest, acc)
        } else {
            match envelope_merge(acc, Field { tag, value: FieldValue::Bytes(b) }) {
                Some(next) => envelope_fold(rest, next),
                None => None,
            }
        },
{
    let s = optional_bytes_field(tag, b) + rest;
    if b.len() == 0 {
        assert(s =~= rest);
    } else {
        lemma_bytes_field_round_trip(tag, b, rest, NESTING_BUDGET as nat);
        lemma_field_prefix_bounds(s, NESTING_BUDGET as nat);
        assert(s.skip(optional_bytes_field(tag, b).len() as int) =~= rest);
    }
}

/// Reading the wire form of an envelope gives the envelope back, whatever the timestamp
/// and the value are.
pub proof fn lemma_envelope_round_trip(e: EnvelopeView)
    requires
        e.value.len() <= u64::MAX,
    ensures
        envelope_parse(envelope_bytes(e)) == Some(e),
{
    let value_part = optional_bytes_field(ENVELOPE_VALUE, e.value);
    lemma_envelope_fold_varint(ENVELOPE_TIMESTAMP, e.timestamp, value_part, empty_envelope());
    let with_timestamp = EnvelopeView { timestamp: e.timestamp, ..empty_envelope() };
    assert(value_part + Seq::<u8>::empty() =~= value_part);
    lemma_envelope_fold_bytes(ENVELOPE_VALUE, e.value, Seq::empty(), with_timestamp);
    assert(e.value.len() == 0 ==> e.value =~= Seq::<u8>::empty());
}

impl ValueEnvelope {
    /// The wire form of the envelope.
    pub fn encode(&self) -> (wire: Vec<u8>)
        ensures
            wire@ == envelope_bytes(self@),
    {
        let mut wire: Vec<u8> = Vec::new();
        put_optional_varint_field(ENVELOPE_TIMESTAMP, self.timestamp, &mut wire);
        put_optional_bytes_field(ENVELOPE_VALUE, self.value.as_slice(), &mut wire);
        assert(wire@ =~= envelope_bytes(self@));
        wire
    }

    /// Reads an envelope from its wire form. Fails exactly on bytes that are not the wire
    /// form of an envelope.
    pub fn decode(wire: &[u8]) -> (r: Result<ValueEnvelope, Malformed>)
        ensures
            match r {
                Ok(e) => envelope_parse(wire@) == Some(e@),
                Err(_) => envelope_parse(wire@) is None,
            },
    {
        let mut envelope = ValueEnvelope { timestamp: 0, value: Vec::new() };
        let mut at: &[u8] = wire;
        while at.len() > 0
            invariant
                envelope_parse(wire@) == envelope_fold(at@, envelope@),
            decreases at.len(),
        {
            let (tag, token, rest) = match take_field(at, NESTING_BUDGET) {
                Ok(taken) => taken,
                Err(e) => {
                    return Err(e);
                },
            };
            if tag == ENVELOPE_TIMESTAMP {
                match token {
                    Token::Varint(v) => {
                        envelope.timestamp = v;
                    },
                    _ => {
                        return Err(Malformed);
                    },
                }
            } else if tag == ENVELOPE_VALUE {
                match token {
                    Token::Bytes(b) => {
                        envelope.value = vstd::slice::slice_to_vec(b);
                    },
                    _ => {
                        return Err(Malformed);
                    },
                }
            }
            at = rest;
        }
        Ok(envelope)
    }
}

} // verus!
