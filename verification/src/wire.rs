//! Primitives of the binary wire format: base-128 variable-length integers, and the
//! numbers that the format fixes.
//!
//! Integers are written and read by the `prost` crate. What it writes is `varint`, and what
//! it reads is `varint_prefix`; all that this library proves of its messages rests on these
//! two statements.

use vstd::prelude::*;

verus! {

/// Wire type of a variable-length integer.
pub const WIRE_VARINT: u8 = 0;

/// Wire type of eight bytes of fixed width.
pub const WIRE_FIXED64: u8 = 1;

/// Wire type of a length, written as a variable-length integer, and that many bytes.
pub const WIRE_DELIMITED: u8 = 2;

/// Wire type of the marker that opens a group of fields.
pub const WIRE_GROUP_START: u8 = 3;

/// Wire type of the marker that closes a group of fields.
pub const WIRE_GROUP_END: u8 = 4;

/// Wire type of four bytes of fixed width.
pub const WIRE_FIXED32: u8 = 5;

/// Tags lie between 1 and this bound, so that a key fits in 32 bits.
pub const TAG_LIMIT: u32 = 0x2000_0000;

/// How deep the fields of a message read at the top level may nest.
pub const NESTING_BUDGET: u32 = 100;

/// `prost::DecodeError`, the error of `prost::encoding::decode_varint`. Nothing is known of
/// what it holds.
#[verifier::external_type_specification]
#[verifier::external_body]
pub struct ExDecodeError(prost::DecodeError);

/// The base-128 encoding of `v`: seven bits per byte, least significant group first,
/// the high bit set on every byte but the last.
pub open spec fn varint(v: nat) -> Seq<u8>
    decreases v,
{
    if v < 0x80 {
        seq![v as u8]
    } else {
        seq![(v % 0x80 + 0x80) as u8] + varint(v / 0x80)
    }
}

/// Reads one variable-length integer from the front of `s`, where `s[0]` is byte number
/// `index` of the integer: the value and the number of bytes it takes. An integer has at most
/// ten bytes, and the tenth may only hold the one bit that still fits in 64.
pub open spec fn varint_prefix(s: Seq<u8>, index: nat) -> Option<(nat, nat)>
    decreases s.len(),
{
    if s.len() == 0 || index >= 10 {
        None
    } else if s[0] < 0x80 {
        if index == 9 && s[0] >= 2 {
            None
        } else {
            Some((s[0] as nat, 1))
        }
    } else {
        match varint_prefix(s.skip(1), index + 1) {
            Some((v, n)) => Some(((s[0] - 0x80 + 0x80 * v) as nat, n + 1)),
            None => None,
        }
    }
}

/// What an integer that starts at byte number `index` stays below.
pub open spec fn varint_limit(index: nat) -> nat
    decreases 10 - index,
{
    if index >= 9 {
        2
    } else {
        0x80 * varint_limit(index + 1)
    }
}

/// `rest` is what is left of `input` once its front has been taken.
pub open spec fn is_rest_of(rest: Seq<u8>, input: Seq<u8>) -> bool {
    &&& rest.len() <= input.len()
    &&& rest == input.skip(input.len() - rest.len())
}

/// Calls `prost::encoding::encode_varint` on a `Vec<u8>`: the bytes of `varint(value)`
/// are appended to `buf`, and nothing else changes.
#[verifier::external_body]
pub(crate) fn put_varint(value: u64, buf: &mut Vec<u8>)
    ensures
        final(buf)@ == old(buf)@ + varint(value as nat),
{
    prost::encoding::encode_varint(value, buf);
}

/// Calls `prost::encoding::decode_varint` on a byte slice: it succeeds exactly when
/// `varint_prefix` finds an integer at the front of `input`, and then returns the integer's
/// value together with the bytes that follow it.
#[verifier::external_body]
pub(crate) fn take_varint<'a>(input: &'a [u8]) -> (r: Result<(u64, &'a [u8]), prost::DecodeError>)
    ensures
        match r {
            Ok((value, rest)) => {
                &&& is_rest_of(rest@, input@)
                &&& varint_prefix(input@, 0) == Some(
                    (value as nat, (input@.len() - rest@.len()) as nat),
                )
            },
            Err(_) => varint_prefix(input@, 0) is None,
        },
{
    let mut rest: &[u8] = input;
    let value = prost::encoding::decode_varint(&mut rest)?;
    Ok((value, rest))
}

/// The limit at the first byte is the range of `u64`.
pub proof fn lemma_varint_limit_start()
    ensures
        varint_limit(0) == 0x1_0000_0000_0000_0000,
{
    reveal_with_fuel(varint_limit, 11);
}

/// No limit is below that of the last byte.
pub proof fn lemma_varint_limit_floor(index: nat)
    ensures
        varint_limit(index) >= 2,
        index < 9 ==> varint_limit(index) == 0x80 * varint_limit(index + 1),
    decreases 10 - index,
{
    if index < 9 {
        lemma_varint_limit_floor(index + 1);
    }
}

/// An integer that is read is made of at least one and at most ten bytes, all of them in
/// `s`, and stays below the limit of the byte it starts at.
pub proof fn lemma_varint_prefix_bounds(s: Seq<u8>, index: nat)
    ensures
        match varint_prefix(s, index) {
            Some((v, n)) => index <= 9 && 1 <= n <= s.len() && n <= 10 - index && v < varint_limit(
                index,
            ),
            None => true,
        },
    decreases s.len(),
{
    lemma_varint_limit_floor(index);
    if s.len() > 0 && index < 10 && s[0] >= 0x80 {
        lemma_varint_prefix_bounds(s.skip(1), index + 1);
    }
}

/// The encoding of `v`, whatever follows it, reads back as `v`.
pub proof fn lemma_varint_prefix_of_varint(v: nat, rest: Seq<u8>, index: nat)
    requires
        index <= 9,
        v < varint_limit(index),
    ensures
        varint_prefix(varint(v) + rest, index) == Some((v, varint(v).len())),
    decreases v,
{
    reveal_with_fuel(varint_limit, 2);
    let s = varint(v) + rest;
    if v < 0x80 {
        assert(s[0] == v as u8);
    } else {
        let tail = varint(v / 0x80);
        assert(s[0] == (v % 0x80 + 0x80) as u8);
        assert(s.skip(1) =~= tail + rest);
        lemma_varint_prefix_of_varint(v / 0x80, rest, index + 1);
    }
}

/// The encoding of a 64-bit integer, whatever follows it, reads back as that integer.
pub proof fn lemma_varint_round_trip(v: u64, rest: Seq<u8>)
    ensures
        varint_prefix(varint(v as nat) + rest, 0) == Some((v as nat, varint(v as nat).len())),
{
    lemma_varint_limit_start();
    lemma_varint_prefix_of_varint(v as nat, rest, 0);
}

} // verus!
