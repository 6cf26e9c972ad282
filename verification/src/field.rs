//! Field keys and fields: what a message is made of on the wire.
//!
//! A field is a key followed by a value. The key is a variable-length integer that holds
//! the field's tag in its upper bits and the wire type in its lowest three. The messages of
//! this library have fields of two wire types only, variable-length integers and
//! length-delimited bytes; a field of any other wire type is stepped over where its tag is
//! unknown, and to step over it its extent has to be found.

use crate::error::Malformed;
use crate::wire::{
    is_rest_of, lemma_varint_prefix_bounds, lemma_varint_round_trip, put_varint, take_varint, varint,
    varint_prefix, TAG_LIMIT, WIRE_DELIMITED, WIRE_FIXED32, WIRE_FIXED64, WIRE_GROUP_END,
    WIRE_GROUP_START, WIRE_VARINT,
};
use vstd::prelude::*;

verus! {

/// The key of a field.
#[derive(Debug, Clone, Copy, PartialEq, Eq, Structural)]
pub struct Key {
    pub tag: u32,
    pub wire_type: u8,
}

/// The value of a field as it was read.
pub enum FieldValue {
    /// A variable-length integer.
    Varint(u64),
    /// Length-delimited bytes, without their length.
    Bytes(Seq<u8>),
    /// A value of another wire type; only its extent is known.
    Skipped,
}

/// A field as it was read.
pub struct Field {
    pub tag: u32,
    pub value: FieldValue,
}

/// The value of a field as executable code holds it.
#[derive(Debug, Clone, Copy, PartialEq, Eq)]
pub enum Token<'a> {
    /// A variable-length integer.
    Varint(u64),
    /// Length-delimited bytes, without their length.
    Bytes(&'a [u8]),
    /// A value of another wire type, stepped over.
    Skipped,
}

impl<'a> View for Token<'a> {
    type V = FieldValue;

    open spec fn view(&self) -> FieldValue {
        match self {
            Token::Varint(v) => FieldValue::Varint(*v),
            Token::Bytes(b) => FieldValue::Bytes(b@),
            Token::Skipped => FieldValue::Skipped,
        }
    }
}

/// The bytes of the key with the given tag and wire type.
pub open spec fn key_bytes(tag: u32, wire_type: u8) -> Seq<u8> {
    varint((tag * 8 + wire_type) as nat)
}

/// The bytes of a field that holds the integer `v`.
pub open spec fn varint_field(tag: u32, v: u64) -> Seq<u8> {
    key_bytes(tag, WIRE_VARINT) + varint(v as nat)
}

/// The bytes of a field that holds the bytes `b`.
pub open spec fn bytes_field(tag: u32, b: Seq<u8>) -> Seq<u8> {
    key_bytes(tag, WIRE_DELIMITED) + varint(b.len()) + b
}

/// The bytes of an integer field that is left out where the integer is zero.
pub open spec fn optional_varint_field(tag: u32, v: u64) -> Seq<u8> {
    if v == 0 {
        Seq::empty()
    } else {
        varint_field(tag, v)
    }
}

/// The bytes of a bytes field that is left out where there are no bytes.
pub open spec fn optional_bytes_field(tag: u32, b: Seq<u8>) -> Seq<u8> {
    if b.len() == 0 {
        Seq::empty()
    } else {
        bytes_field(tag, b)
    }
}

/// Reads a key from the front of `s`: the key and the number of bytes it takes. The key's
/// integer has to fit in 32 bits, the wire type has to be one of the six that exist, and
/// the tag may not be zero.
pub open spec fn key_prefix(s: Seq<u8>) -> Option<(Key, nat)> {
    match varint_prefix(s, 0) {
        Some((raw, n)) => if raw <= u32::MAX && raw % 8 <= WIRE_FIXED32 && raw / 8 >= 1 {
            Some((Key { tag: (raw / 8) as u32, wire_type: (raw % 8) as u8 }, n))
        } else {
            None
        },
        None => None,
    }
}

/// The extent of a value of the given wire type at the front of `s`, for a field with the
/// given tag. `budget` bounds how deep groups may nest: stepping over a value costs one,
/// and the fields inside a group are stepped over with what is left.
pub open spec fn skipped_len(wire_type: u8, tag: u32, s: Seq<u8>, budget: nat) -> Option<nat>
    decreases s.len(), 1nat,
{
    if budget == 0 {
        None
    } else if wire_type == WIRE_VARINT {
        match varint_prefix(s, 0) {
            Some((_, n)) => Some(n),
            None => None,
        }
    } else if wire_type == WIRE_FIXED64 {
        if s.len() >= 8 {
            Some(8)
        } else {
            None
        }
    } else if wire_type == WIRE_FIXED32 {
        if s.len() >= 4 {
            Some(4)
        } else {
            None
        }
    } else if wire_type == WIRE_DELIMITED {
        match varint_prefix(s, 0) {
            Some((len, n)) => if len <= s.len() - n {
                Some(n + len)
            } else {
                None
            },
            None => None,
        }
    } else if wire_type == WIRE_GROUP_START {
        group_len(tag, s, budget)
    } else {
        None
    }
}

/// The extent of the rest of a group that was opened with the given tag: fields, each
/// stepped over with one less than `budget`, up to and including the marker that closes
/// the group, which has to carry the same tag.
pub open spec fn group_len(tag: u32, s: Seq<u8>, budget: nat) -> Option<nat>
    decreases s.len(), 0nat,
{
    match key_prefix(s) {
        Some((key, n)) => if budget == 0 || n == 0 || n > s.len() {
            None
        } else if key.wire_type == WIRE_GROUP_END {
            if key.tag == tag {
                Some(n)
            } else {
                None
            }
        } else {
            match skipped_len(key.wire_type, key.tag, s.skip(n as int), (budget - 1) as nat) {
                Some(m) => if m > s.len() - n {
                    None
                } else {
                    match group_len(tag, s.skip((n + m) as int), budget) {
                        Some(k) => Some(n + m + k),
                        None => None,
                    }
                },
                None => None,
            }
        },
        None => None,
    }
}

/// Reads a field from the front of `s`: the field and the number of bytes it takes.
#[verifier::opaque]
pub open spec fn field_prefix(s: Seq<u8>, budget: nat) -> Option<(Field, nat)> {
    match key_prefix(s) {
        Some((key, n)) => {
            let body = s.skip(n as int);
            if key.wire_type == WIRE_VARINT {
                match varint_prefix(body, 0) {
                    Some((v, m)) => Some(
                        (Field { tag: key.tag, value: FieldValue::Varint(v as u64) }, n + m),
                    ),
                    None => None,
                }
            } else if key.wire_type == WIRE_DELIMITED {
                match varint_prefix(body, 0) {
                    Some((len, m)) => if len <= body.len() - m {
                        Some(
                            (
                                Field {
                                    tag: key.tag,
                                    value: FieldValue::Bytes(
                                        body.subrange(m as int, (m + len) as int),
                                    ),
                                },
                                n + m + len,
                            ),
                        )
                    } else {
                        None
                    },
                    None => None,
                }
            } else {
                match skipped_len(key.wire_type, key.tag, body, budget) {
                    Some(m) => Some((Field { tag: key.tag, value: FieldValue::Skipped }, n + m)),
                    None => None,
                }
            }
        },
        None => None,
    }
}

/// What is left of what is left is left.
pub proof fn lemma_rest_of_rest(last: Seq<u8>, middle: Seq<u8>, input: Seq<u8>)
    requires
        is_rest_of(last, middle),
        is_rest_of(middle, input),
    ensures
        is_rest_of(last, input),
{
    assert(last =~= input.skip(input.len() - last.len()));
}

/// A key that is read takes at least one byte, and all its bytes are in `s`.
pub proof fn lemma_key_prefix_bounds(s: Seq<u8>)
    ensures
        match key_prefix(s) {
            Some((key, n)) => 1 <= n <= s.len() && 1 <= key.tag < TAG_LIMIT && key.wire_type
                <= WIRE_FIXED32,
            None => true,
        },
{
    lemma_varint_prefix_bounds(s, 0);
}

/// An extent that is found lies within `s`.
pub proof fn lemma_skipped_len_bounds(wire_type: u8, tag: u32, s: Seq<u8>, budget: nat)
    ensures
        match skipped_len(wire_type, tag, s, budget) {
            Some(n) => n <= s.len(),
            None => true,
        },
    decreases s.len(), 1nat,
{
    lemma_varint_prefix_bounds(s, 0);
    if budget > 0 && wire_type == WIRE_GROUP_START {
        lemma_group_len_bounds(tag, s, budget);
    }
}

/// The extent of a group lies within `s` and holds at least the closing marker.
pub proof fn lemma_group_len_bounds(tag: u32, s: Seq<u8>, budget: nat)
    ensures
        match group_len(tag, s, budget) {
            Some(n) => 1 <= n <= s.len(),
            None => true,
        },
    decreases s.len(), 0nat,
{
    lemma_key_prefix_bounds(s);
    match key_prefix(s) {
        Some((key, n)) => {
            if budget > 0 && key.wire_type != WIRE_GROUP_END {
                let after = s.skip(n as int);
                lemma_skipped_len_bounds(key.wire_type, key.tag, after, (budget - 1) as nat);
                match skipped_len(key.wire_type, key.tag, after, (budget - 1) as nat) {
                    Some(m) => {
                        lemma_group_len_bounds(tag, s.skip((n + m) as int), budget);
                    },
                    None => {},
                }
            }
        },
        None => {},
    }
}

/// A field that is read takes at least one byte, and all its bytes are in `s`.
pub proof fn lemma_field_prefix_bounds(s: Seq<u8>, budget: nat)
    ensures
        match field_prefix(s, budget) {
            Some((field, n)) => 1 <= n <= s.len() && 1 <= field.tag < TAG_LIMIT,
            None => true,
        },
{
    reveal(field_prefix);
    lemma_key_prefix_bounds(s);
    match key_prefix(s) {
        Some((key, n)) => {
            let body = s.skip(n as int);
            lemma_varint_prefix_bounds(body, 0);
            lemma_skipped_len_bounds(key.wire_type, key.tag, body, budget);
        },
        None => {},
    }
}

/// A key, whatever follows it, reads back as it was written.
pub proof fn lemma_key_round_trip(tag: u32, wire_type: u8, rest: Seq<u8>)
    requires
        1 <= tag < TAG_LIMIT,
        wire_type <= WIRE_FIXED32,
    ensures
        key_prefix(key_bytes(tag, wire_type) + rest) == Some(
            (Key { tag, wire_type }, key_bytes(tag, wire_type).len()),
        ),
{
    let raw = (tag * 8 + wire_type) as u64;
    lemma_varint_round_trip(raw, rest);
}

/// An integer field, whatever follows it, reads back as it was written.
pub proof fn lemma_varint_field_round_trip(tag: u32, v: u64, rest: Seq<u8>, budget: nat)
    requires
        1 <= tag < TAG_LIMIT,
    ensures
        field_prefix(varint_field(tag, v) + rest, budget) == Some(
            (Field { tag, value: FieldValue::Varint(v) }, varint_field(tag, v).len()),
        ),
{
    reveal(field_prefix);
    let key = key_bytes(tag, WIRE_VARINT);
    let s = varint_field(tag, v) + rest;
    assert(s =~= key + (varint(v as nat) + rest));
    lemma_key_round_trip(tag, WIRE_VARINT, varint(v as nat) + rest);
    assert(s.skip(key.len() as int) =~= varint(v as nat) + rest);
    lemma_varint_round_trip(v, rest);
}

/// A bytes field, whatever follows it, reads back as it was written.
pub proof fn lemma_bytes_field_round_trip(tag: u32, b: Seq<u8>, rest: Seq<u8>, budget: nat)
    requires
        1 <= tag < TAG_LIMIT,
        b.len() <= u64::MAX,
    ensures
        field_prefix(bytes_field(tag, b) + rest, budget) == Some(
            (Field { tag, value: FieldValue::Bytes(b) }, bytes_field(tag, b).len()),
        ),
{
    reveal(field_prefix);
    let key = key_bytes(tag, WIRE_DELIMITED);
    let len = varint(b.len());
    let s = bytes_field(tag, b) + rest;
    assert(s =~= key + (len + b + rest));
    lemma_key_round_trip(tag, WIRE_DELIMITED, len + b + rest);
    let body = s.skip(key.len() as int);
    assert(body =~= len + (b + rest));
    lemma_varint_round_trip(b.len() as u64, b + rest);
    assert(body.subrange(len.len() as int, (len.len() + b.len()) as int) =~= b);
}

/// Appends the key with the given tag and wire type to `buf`.
pub fn put_key(tag: u32, wire_type: u8, buf: &mut Vec<u8>)
    ensures
        final(buf)@ == old(buf)@ + key_bytes(tag, wire_type),
{
    put_varint(tag as u64 * 8 + wire_type as u64, buf);
}

/// Appends a field that holds the integer `v` to `buf`.
pub fn put_varint_field(tag: u32, v: u64, buf: &mut Vec<u8>)
    ensures
        final(buf)@ == old(buf)@ + varint_field(tag, v),
{
    put_key(tag, WIRE_VARINT, buf);
    put_varint(v, buf);
    assert(buf@ =~= old(buf)@ + varint_field(tag, v));
}

/// Appends `bytes` to `buf`.
pub fn put_bytes(bytes: &[u8], buf: &mut Vec<u8>)
    ensures
        final(buf)@ == old(buf)@ + bytes@,
{
    buf.extend_from_slice(bytes);
    assert(buf@ =~= old(buf)@ + bytes@);
}

/// Appends a field that holds `bytes` to `buf`.
pub fn put_bytes_field(tag: u32, bytes: &[u8], buf: &mut Vec<u8>)
    ensures
        final(buf)@ == old(buf)@ + bytes_field(tag, bytes@),
{
    put_key(tag, WIRE_DELIMITED, buf);
    put_varint(bytes.len() as u64, buf);
    put_bytes(bytes, buf);
    assert(buf@ =~= old(buf)@ + bytes_field(tag, bytes@));
}

/// Appends a field that holds the integer `v` to `buf`, unless `v` is zero.
pub fn put_optional_varint_field(tag: u32, v: u64, buf: &mut Vec<u8>)
    ensures
        final(buf)@ == old(buf)@ + optional_varint_field(tag, v),
{
    if v != 0 {
        put_varint_field(tag, v, buf);
    }
    assert(buf@ =~= old(buf)@ + optional_varint_field(tag, v));
}

/// Appends a field that holds `bytes` to `buf`, unless there are none.
pub fn put_optional_bytes_field(tag: u32, bytes: &[u8], buf: &mut Vec<u8>)
    ensures
        final(buf)@ == old(buf)@ + optional_bytes_field(tag, bytes@),
{
    if bytes.len() != 0 {
        put_bytes_field(tag, bytes, buf);
    }
    assert(buf@ =~= old(buf)@ + optional_bytes_field(tag, bytes@));
}

/// Takes a key from the front of `input`.
pub fn take_key<'a>(input: &'a [u8]) -> (r: Result<(Key, &'a [u8]), Malformed>)
    ensures
        match r {
            Ok((key, rest)) => {
                &&& is_rest_of(rest@, input@)
                &&& rest@.len() < input@.len()
                &&& key_prefix(input@) == Some((key, (input@.len() - rest@.len()) as nat))
            },
            Err(_) => key_prefix(input@) is None,
        },
{
    match take_varint(input) {
        Ok((raw, rest)) => {
            proof {
                lemma_varint_prefix_bounds(input@, 0);
            }
            if raw > 0xFFFF_FFFF || raw % 8 > 5 || raw / 8 < 1 {
                Err(Malformed)
            } else {
                Ok((Key { tag: (raw / 8) as u32, wire_type: (raw % 8) as u8 }, rest))
            }
        },
        Err(_) => Err(Malformed),
    }
}

/// Steps over a value of the given wire type at the front of `input`.
pub fn skip_value<'a>(wire_type: u8, tag: u32, input: &'a [u8], budget: u32) -> (r: Result<
    &'a [u8],
    Malformed,
>)
    ensures
        match r {
            Ok(rest) => {
                &&& is_rest_of(rest@, input@)
                &&& skipped_len(wire_type, tag, input@, budget as nat) == Some(
                    (input@.len() - rest@.len()) as nat,
                )
            },
            Err(_) => skipped_len(wire_type, tag, input@, budget as nat) is None,
        },
    decreases budget, 1nat,
{
    if budget == 0 {
        Err(Malformed)
    } else if wire_type == WIRE_VARINT {
        match take_varint(input) {
            Ok((_, rest)) => Ok(rest),
            Err(_) => Err(Malformed),
        }
    } else if wire_type == WIRE_FIXED64 {
        if input.len() >= 8 {
            let (_, rest) = input.split_at(8);
            Ok(rest)
        } else {
            Err(Malformed)
        }
    } else if wire_type == WIRE_FIXED32 {
        if input.len() >= 4 {
            let (_, rest) = input.split_at(4);
            Ok(rest)
        } else {
            Err(Malformed)
        }
    } else if wire_type == WIRE_DELIMITED {
        match take_varint(input) {
            Ok((len, body)) => {
                if len > body.len() as u64 {
                    Err(Malformed)
                } else {
                    let (_, rest) = body.split_at(len as usize);
                    proof {
                        lemma_rest_of_rest(rest@, body@, input@);
                    }
                    Ok(rest)
                }
            },
            Err(_) => Err(Malformed),
        }
    } else if wire_type == WIRE_GROUP_START {
        skip_group(tag, input, budget)
    } else {
        Err(Malformed)
    }
}

/// Steps over the rest of a group that was opened with the given tag.
pub fn skip_group<'a>(tag: u32, input: &'a [u8], budget: u32) -> (r: Result<&'a [u8], Malformed>)
    ensures
        match r {
            Ok(rest) => {
                &&& is_rest_of(rest@, input@)
                &&& group_len(tag, input@, budget as nat) == Some(
                    (input@.len() - rest@.len()) as nat,
                )
            },
            Err(_) => group_len(tag, input@, budget as nat) is None,
        },
    decreases budget, 0nat,
{
    if budget == 0 {
        return Err(Malformed);
    }
    let mut at: &'a [u8] = input;
    assert(input@.skip(0) =~= input@);
    loop
        invariant
            budget > 0,
            is_rest_of(at@, input@),
            group_len(tag, input@, budget as nat) == match group_len(tag, at@, budget as nat) {
                Some(k) => Some((input@.len() - at@.len() + k) as nat),
                None => None,
            },
        decreases at@.len(),
    {
        let (key, body) = match take_key(at) {
            Ok(taken) => taken,
            Err(e) => {
                return Err(e);
            },
        };
        proof {
            lemma_rest_of_rest(body@, at@, input@);
        }
        if key.wire_type == WIRE_GROUP_END {
            if key.tag == tag {
                return Ok(body);
            } else {
                return Err(Malformed);
            }
        }
        let next = match skip_value(key.wire_type, key.tag, body, budget - 1) {
            Ok(rest) => rest,
            Err(e) => {
                return Err(e);
            },
        };
        proof {
            lemma_rest_of_rest(next@, body@, at@);
            lemma_rest_of_rest(next@, at@, input@);
            lemma_group_len_bounds(tag, next@, budget as nat);
        }
        at = next;
    }
}

/// Takes a field from the front of `input`: its tag, its value and the bytes that follow.
pub fn take_field<'a>(input: &'a [u8], budget: u32) -> (r: Result<
    (u32, Token<'a>, &'a [u8]),
    Malformed,
>)
    ensures
        match r {
            Ok((tag, token, rest)) => {
                &&& is_rest_of(rest@, input@)
                &&& rest@.len() < input@.len()
                &&& field_prefix(input@, budget as nat) == Some(
                    (Field { tag, value: token@ }, (input@.len() - rest@.len()) as nat),
                )
            },
            Err(_) => field_prefix(input@, budget as nat) is None,
        },
{
    proof {
        reveal(field_prefix);
    }
    let (key, body) = match take_key(input) {
        Ok(taken) => taken,
        Err(e) => {
            return Err(e);
        },
    };
    if key.wire_type == WIRE_VARINT {
        match take_varint(body) {
            Ok((v, rest)) => {
                proof {
                    lemma_rest_of_rest(rest@, body@, input@);
                }
                Ok((key.tag, Token::Varint(v), rest))
            },
            Err(_) => Err(Malformed),
        }
    } else if key.wire_type == WIRE_DELIMITED {
        match take_varint(body) {
            Ok((len, after)) => {
                if len > after.len() as u64 {
                    Err(Malformed)
                } else {
                    let (bytes, rest) = after.split_at(len as usize);
                    proof {
                        lemma_rest_of_rest(rest@, after@, body@);
                        lemma_rest_of_rest(rest@, body@, input@);
                        let m = body@.len() - after@.len();
                        assert(bytes@ =~= body@.subrange(m, m + len));
                    }
                    Ok((key.tag, Token::Bytes(bytes), rest))
                }
            },
            Err(_) => Err(Malformed),
        }
    } else {
        match skip_value(key.wire_type, key.tag, body, budget) {
            Ok(rest) => {
                proof {
                    lemma_rest_of_rest(rest@, body@, input@);
                }
                Ok((key.tag, Token::Skipped, rest))
            },
            Err(e) => Err(e),
        }
    }
}

} // verus!
