//! Requests, responses, and the key tuples they carry.
//!
//! A request names an operation and carries one key tuple for each key it is about; the
//! response carries the tuples that answer it. A tuple stands inside a request or a response
//! as a length-delimited field, one field for each tuple, in their order.

use crate::error::Malformed;
use crate::field::{
    bytes_field, field_prefix, lemma_bytes_field_round_trip, lemma_field_prefix_bounds,
    lemma_varint_field_round_trip, optional_bytes_field, optional_varint_field, put_bytes_field,
    put_optional_bytes_field, put_optional_varint_field, take_field, Field, FieldValue, Token,
};
use crate::text::text_of;
use crate::wire::{NESTING_BUDGET, TAG_LIMIT};
use vstd::prelude::*;
use vstd::string::*;
use vstd::utf8::*;

verus! {

/// Operation type of a read.
pub const OP_GET: u32 = 1;

/// Operation type of a write.
pub const OP_PUT: u32 = 2;

/// Lattice type of a value that the last writer wins.
pub const LATTICE_LWW: u32 = 1;

/// Error code of a tuple without an error.
pub const NO_ERROR: u32 = 0;

/// Tag of a tuple's key, a text field.
pub const TUPLE_KEY: u32 = 1;

/// Tag of a tuple's lattice type, an integer field.
pub const TUPLE_LATTICE_TYPE: u32 = 2;

/// Tag of a tuple's error code, an integer field.
pub const TUPLE_ERROR: u32 = 3;

/// Tag of a tuple's payload, a bytes field.
pub const TUPLE_PAYLOAD: u32 = 4;

/// Tag of a tuple's address cache size, an integer field.
pub const TUPLE_CACHE_SIZE: u32 = 5;

/// Tag of a tuple's invalidate flag, an integer field.
pub const TUPLE_INVALIDATE: u32 = 6;

/// Tag of a request's operation type, an integer field.
pub const REQUEST_OP_TYPE: u32 = 1;

/// Tag of a request's tuples, one length-delimited field each.
pub const REQUEST_TUPLES: u32 = 2;

/// Tag of a request's reply address, a text field.
pub const REQUEST_REPLY_ADDRESS: u32 = 3;

/// Tag of a request's identifier, a text field.
pub const REQUEST_ID: u32 = 4;

/// Tag of a response's tuples, one length-delimited field each.
pub const RESPONSE_TUPLES: u32 = 1;

/// How deep the fields of a tuple may nest: a tuple stands one level inside its message.
pub const TUPLE_BUDGET: u32 = 99;

/// One key of an operation: the key, what kind of value it has, and the value's wire form.
#[derive(Debug, Clone, PartialEq, Eq)]
pub struct KeyTuple {
    pub key: String,
    pub lattice_type: u32,
    pub error: u32,
    pub payload: Vec<u8>,
    pub address_cache_size: u32,
    pub invalidate: bool,
}

/// What a key tuple holds.
pub struct KeyTupleView {
    pub key: Seq<char>,
    pub lattice_type: u32,
    pub error: u32,
    pub payload: Seq<u8>,
    pub address_cache_size: u32,
    pub invalidate: bool,
}

impl View for KeyTuple {
    type V = KeyTupleView;

    open spec fn view(&self) -> KeyTupleView {
        KeyTupleView {
            key: self.key@,
            lattice_type: self.lattice_type,
            error: self.error,
            payload: self.payload@,
            address_cache_size: self.address_cache_size,
            invalidate: self.invalidate,
        }
    }
}

/// An operation on some keys, with the address that the answer is to be sent to.
#[derive(Debug, Clone, PartialEq, Eq)]
pub struct Request {
    pub op_type: u32,
    pub tuples: Vec<KeyTuple>,
    pub reply_address: String,
    pub request_id: String,
}

/// What a request holds.
pub struct RequestView {
    pub op_type: u32,
    pub tuples: Seq<KeyTupleView>,
    pub reply_address: Seq<char>,
    pub request_id: Seq<char>,
}

impl View for Request {
    type V = RequestView;

    open spec fn view(&self) -> RequestView {
        RequestView {
            op_type: self.op_type,
            tuples: tuple_views(self.tuples@),
            reply_address: self.reply_address@,
            request_id: self.request_id@,
        }
    }
}

/// The answer to a request. No tuples: the key of a read was not found.
#[derive(Debug, Clone, PartialEq, Eq)]
pub struct Response {
    pub tuples: Vec<KeyTuple>,
}

/// What a response holds.
pub struct ResponseView {
    pub tuples: Seq<KeyTupleView>,
}

impl View for Response {
    type V = ResponseView;

    open spec fn view(&self) -> ResponseView {
        ResponseView { tuples: tuple_views(self.tuples@) }
    }
}

/// What each tuple of a sequence holds.
pub open spec fn tuple_views(tuples: Seq<KeyTuple>) -> Seq<KeyTupleView> {
    Seq::new(tuples.len(), |i: int| tuples[i]@)
}

/// The low 32 bits of `v`: what an integer field keeps of a longer integer.
pub open spec fn low32(v: u64) -> u32 {
    (v % 0x1_0000_0000) as u32
}

/// The integer that stands for a flag.
pub open spec fn flag_bit(flag: bool) -> u64 {
    if flag {
        1
    } else {
        0
    }
}

/// The tuple in which no field is set.
pub open spec fn empty_tuple() -> KeyTupleView {
    KeyTupleView {
        key: Seq::empty(),
        lattice_type: 0,
        error: 0,
        payload: Seq::empty(),
        address_cache_size: 0,
        invalidate: false,
    }
}

/// The request in which no field is set.
pub open spec fn empty_request() -> RequestView {
    RequestView {
        op_type: 0,
        tuples: Seq::empty(),
        reply_address: Seq::empty(),
        request_id: Seq::empty(),
    }
}

/// The response without tuples.
pub open spec fn empty_response() -> ResponseView {
    ResponseView { tuples: Seq::empty() }
}

/// The wire form of a tuple: its six fields by tag, each left out where it is zero, empty
/// or false.
pub open spec fn tuple_bytes(t: KeyTupleView) -> Seq<u8> {
    optional_bytes_field(TUPLE_KEY, encode_utf8(t.key)) + optional_varint_field(
        TUPLE_LATTICE_TYPE,
        t.lattice_type as u64,
    ) + optional_varint_field(TUPLE_ERROR, t.error as u64) + optional_bytes_field(
        TUPLE_PAYLOAD,
        t.payload,
    ) + optional_varint_field(TUPLE_CACHE_SIZE, t.address_cache_size as u64)
        + optional_varint_field(TUPLE_INVALIDATE, flag_bit(t.invalidate))
}

/// The wire form of a sequence of tuples: one length-delimited field for each, none left
/// out.
pub open spec fn tuples_bytes(tag: u32, tuples: Seq<KeyTupleView>) -> Seq<u8>
    decreases tuples.len(),
{
    if tuples.len() == 0 {
        Seq::empty()
    } else {
        tuples_bytes(tag, tuples.drop_last()) + bytes_field(tag, tuple_bytes(tuples.last()))
    }
}

/// The wire form of a request: operation type, tuples, reply address, identifier.
pub open spec fn request_bytes(r: RequestView) -> Seq<u8> {
    optional_varint_field(REQUEST_OP_TYPE, r.op_type as u64) + tuples_bytes(
        REQUEST_TUPLES,
        r.tuples,
    ) + optional_bytes_field(REQUEST_REPLY_ADDRESS, encode_utf8(r.reply_address))
        + optional_bytes_field(REQUEST_ID, encode_utf8(r.request_id))
}

/// The wire form of a response: its tuples.
pub open spec fn response_bytes(r: ResponseView) -> Seq<u8> {
    tuples_bytes(RESPONSE_TUPLES, r.tuples)
}

/// The tuple `acc` after the field `f` was read. A field with a known tag sets its part and
/// has to have that part's wire type, and text has to be well-formed UTF-8; a field with
/// another tag changes nothing.
pub open spec fn tuple_merge(acc: KeyTupleView, f: Field) -> Option<KeyTupleView> {
    if f.tag == TUPLE_KEY {
        match f.value {
            FieldValue::Bytes(b) => if valid_utf8(b) {
                Some(KeyTupleView { key: decode_utf8(b), ..acc })
            } else {
                None
            },
            _ => None,
        }
    } else if f.tag == TUPLE_LATTICE_TYPE {
        match f.value {
            FieldValue::Varint(v) => Some(KeyTupleView { lattice_type: low32(v), ..acc }),
            _ => None,
        }
    } else if f.tag == TUPLE_ERROR {
        match f.value {
            FieldValue::Varint(v) => Some(KeyTupleView { error: low32(v), ..acc }),
            _ => None,
        }
    } else if f.tag == TUPLE_PAYLOAD {
        match f.value {
            FieldValue::Bytes(b) => Some(KeyTupleView { payload: b, ..acc }),
            _ => None,
        }
    } else if f.tag == TUPLE_CACHE_SIZE {
        match f.value {
            FieldValue::Varint(v) => Some(KeyTupleView { address_cache_size: low32(v), ..acc }),
            _ => None,
        }
    } else if f.tag == TUPLE_INVALIDATE {
        match f.value {
            FieldValue::Varint(v) => Some(KeyTupleView { invalidate: v != 0, ..acc }),
            _ => None,
        }
    } else {
        Some(acc)
    }
}

/// The tuple `acc` after all the fields in `s` were read, one after the other.
pub open spec fn tuple_fold(s: Seq<u8>, acc: KeyTupleView) -> Option<KeyTupleView>
    decreases s.len(),
{
    if s.len() == 0 {
        Some(acc)
    } else {
        match field_prefix(s, TUPLE_BUDGET as nat) {
            Some((f, n)) => if 0 < n <= s.len() {
                match tuple_merge(acc, f) {
                    Some(next) => tuple_fold(s.skip(n as int), next),
                    None => None,
                }
            } else {
                None
            },
            None => None,
        }
    }
}

/// The tuple that the bytes `s` hold, if they are the wire form of one.
pub open spec fn tuple_parse(s: Seq<u8>) -> Option<KeyTupleView> {
    tuple_fold(s, empty_tuple())
}

/// The request `acc` after the field `f` was read. Each tuple field adds one tuple at the
/// end and has to hold the wire form of a tuple.
pub open spec fn request_merge(acc: RequestView, f: Field) -> Option<RequestView> {
    if f.tag == REQUEST_OP_TYPE {
        match f.value {
            FieldValue::Varint(v) => Some(RequestView { op_type: low32(v), ..acc }),
            _ => None,
        }
    } else if f.tag == REQUEST_TUPLES {
        match f.value {
            FieldValue::Bytes(b) => match tuple_parse(b) {
                Some(t) => Some(RequestView { tuples: acc.tuples.push(t), ..acc }),
                None => None,
            },
            _ => None,
        }
    } else if f.tag == REQUEST_REPLY_ADDRESS {
        match f.value {
            FieldValue::Bytes(b) => if valid_utf8(b) {
                Some(RequestView { reply_address: decode_utf8(b), ..acc })
            } else {
                None
            },
            _ => None,
        }
    } else if f.tag == REQUEST_ID {
        match f.value {
            FieldValue::Bytes(b) => if valid_utf8(b) {
                Some(RequestView { request_id: decode_utf8(b), ..acc })
            } else {
                None
            },
            _ => None,
        }
    } else {
        Some(acc)
    }
}

/// The request `acc` after all the fields in `s` were read, one after the other.
pub open spec fn request_fold(s: Seq<u8>, acc: RequestView) -> Option<RequestView>
    decreases s.len(),
{
    if s.len() == 0 {
        Some(acc)
    } else {
        match field_prefix(s, NESTING_BUDGET as nat) {
            Some((f, n)) => if 0 < n <= s.len() {
                match request_merge(acc, f) {
                    Some(next) => request_fold(s.skip(n as int), next),
                    None => None,
                }
            } else {
                None
            },
            None => None,
        }
    }
}

/// The request that the bytes `s` hold, if they are the wire form of one.
pub open spec fn request_parse(s: Seq<u8>) -> Option<RequestView> {
    request_fold(s, empty_request())
}

/// The response `acc` after the field `f` was read. Each tuple field adds one tuple at the
/// end and has to hold the wire form of a tuple; a field with another tag changes nothing.
pub open spec fn response_merge(acc: ResponseView, f: Field) -> Option<ResponseView> {
    if f.tag == RESPONSE_TUPLES {
        match f.value {
            FieldValue::Bytes(b) => match tuple_parse(b) {
                Some(t) => Some(ResponseView { tuples: acc.tuples.push(t) }),
                None => None,
            },
            _ => None,
        }
    } else {
        Some(acc)
    }
}

/// The response `acc` after all the fields in `s` were read, one after the other.
pub open spec fn response_fold(s: Seq<u8>, acc: ResponseView) -> Option<ResponseView>
    decreases s.len(),
{
    if s.len() == 0 {
        Some(acc)
    } else {
        match field_prefix(s, NESTING_BUDGET as nat) {
            Some((f, n)) => if 0 < n <= s.len() {
                match response_merge(acc, f) {
                    Some(next) => response_fold(s.skip(n as int), next),
                    None => None,
                }
            } else {
                None
            },
            None => None,
        }
    }
}

/// The response that the bytes `s` hold, if they are the wire form of one.
pub open spec fn response_parse(s: Seq<u8>) -> Option<ResponseView> {
    response_fold(s, empty_response())
}

/// The lengths in the wire form of the tuple fit in 64 bits.
pub open spec fn tuple_fits(t: KeyTupleView) -> bool {
    &&& encode_utf8(t.key).len() <= u64::MAX
    &&& t.payload.len() <= u64::MAX
    &&& tuple_bytes(t).len() <= u64::MAX
}

/// The lengths in the wire forms of the tuples fit in 64 bits.
pub open spec fn tuples_fit(tuples: Seq<KeyTupleView>) -> bool {
    forall|i: int| 0 <= i < tuples.len() ==> tuple_fits(#[trigger] tuples[i])
}

/// The lengths in the wire form of the request fit in 64 bits.
pub open spec fn request_fits(r: RequestView) -> bool {
    &&& tuples_fit(r.tuples)
    &&& encode_utf8(r.reply_address).len() <= u64::MAX
    &&& encode_utf8(r.request_id).len() <= u64::MAX
}

/// Text whose UTF-8 form is empty is empty.
pub proof fn lemma_text_of_no_bytes(text: Seq<char>)
    requires
        encode_utf8(text).len() == 0,
    ensures
        text == Seq::<char>::empty(),
{
    encode_utf8_decode_utf8(text);
    assert(encode_utf8(text) =~= Seq::<u8>::empty());
    assert(decode_utf8(Seq::<u8>::empty()) =~= Seq::<char>::empty());
}

/// In a tuple, reading an integer field and what follows it is merging the field, then
/// reading what follows.
pub proof fn lemma_tuple_fold_varint(tag: u32, v: u64, rest: Seq<u8>, acc: KeyTupleView)
    requires
        1 <= tag < TAG_LIMIT,
    ensures
        tuple_fold(optional_varint_field(tag, v) + rest, acc) == if v == 0 {
            tuple_fold(rest, acc)
        } else {
            match tuple_merge(acc, Field { tag, value: FieldValue::Varint(v) }) {
                Some(next) => tuple_fold(rest, next),
                None => None,
            }
        },
{
    let s = optional_varint_field(tag, v) + rest;
    if v == 0 {
        assert(s =~= rest);
    } else {
        lemma_varint_field_round_trip(tag, v, rest, TUPLE_BUDGET as nat);
        lemma_field_prefix_bounds(s, TUPLE_BUDGET as nat);
        assert(s.skip(optional_varint_field(tag, v).len() as int) =~= rest);
    }
}

/// In a tuple, reading a bytes field and what follows it is merging the field, then reading
/// what follows.
pub proof fn lemma_tuple_fold_bytes(tag: u32, b: Seq<u8>, rest: Seq<u8>, acc: KeyTupleView)
    requires
        1 <= tag < TAG_LIMIT,
        b.len() <= u64::MAX,
    ensures
        tuple_fold(optional_bytes_field(tag, b) + rest, acc) == if b.len() == 0 {
            tuple_fold(rest, acc)
        } else {
            match tuple_merge(acc, Field { tag, value: FieldValue::Bytes(b) }) {
                Some(next) => tuple_fold(rest, next),
                None => None,
            }
        },
{
    let s = optional_bytes_field(tag, b) + rest;
    if b.len() == 0 {
        assert(s =~= rest);
    } else {
        lemma_bytes_field_round_trip(tag, b, rest, TUPLE_BUDGET as nat);
        lemma_field_prefix_bounds(s, TUPLE_BUDGET as nat);
        assert(s.skip(optional_bytes_field(tag, b).len() as int) =~= rest);
    }
}

/// In a tuple, reading the key's field and what follows it sets the key, then reads what
/// follows.
pub proof fn lemma_tuple_fold_key(key: Seq<char>, rest: Seq<u8>, acc: KeyTupleView)
    requires
        encode_utf8(key).len() <= u64::MAX,
        acc.key == Seq::<char>::empty(),
    ensures
        tuple_fold(optional_bytes_field(TUPLE_KEY, encode_utf8(key)) + rest, acc) == tuple_fold(
            rest,
            KeyTupleView { key, ..acc },
        ),
{
    lemma_tuple_fold_bytes(TUPLE_KEY, encode_utf8(key), rest, acc);
    encode_utf8_valid_utf8(key);
    encode_utf8_decode_utf8(key);
    if encode_utf8(key).len() == 0 {
        lemma_text_of_no_bytes(key);
    }
}

/// The wire form of a tuple, field by field from the front.
pub proof fn lemma_tuple_bytes_nesting(t: KeyTupleView)
    ensures
        tuple_bytes(t) == optional_bytes_field(TUPLE_KEY, encode_utf8(t.key)) + (
        optional_varint_field(TUPLE_LATTICE_TYPE, t.lattice_type as u64) + (optional_varint_field(
            TUPLE_ERROR,
            t.error as u64,
        ) + (optional_bytes_field(TUPLE_PAYLOAD, t.payload) + (optional_varint_field(
            TUPLE_CACHE_SIZE,
            t.address_cache_size as u64,
        ) + (optional_varint_field(TUPLE_INVALIDATE, flag_bit(t.invalidate)) + Seq::<
            u8,
        >::empty()))))),
{
    let key = optional_bytes_field(TUPLE_KEY, encode_utf8(t.key));
    let lattice_type = optional_varint_field(TUPLE_LATTICE_TYPE, t.lattice_type as u64);
    let error = optional_varint_field(TUPLE_ERROR, t.error as u64);
    let payload = optional_bytes_field(TUPLE_PAYLOAD, t.payload);
    let cache_size = optional_varint_field(TUPLE_CACHE_SIZE, t.address_cache_size as u64);
    let invalidate = optional_varint_field(TUPLE_INVALIDATE, flag_bit(t.invalidate));
    let none = Seq::<u8>::empty();
    assert(invalidate + none =~= invalidate);
    assert(key + lattice_type + error + payload + cache_size + invalidate =~= key + (lattice_type
        + (error + (payload + (cache_size + invalidate)))));
}

/// Reading the wire form of a tuple gives the tuple back.
pub proof fn lemma_tuple_round_trip(t: KeyTupleView)
    requires
        tuple_fits(t),
    ensures
        tuple_parse(tuple_bytes(t)) == Some(t),
{
    let none = Seq::<u8>::empty();
    let after5 = optional_varint_field(TUPLE_INVALIDATE, flag_bit(t.invalidate)) + none;
    let after4 = optional_varint_field(TUPLE_CACHE_SIZE, t.address_cache_size as u64) + after5;
    let after3 = optional_bytes_field(TUPLE_PAYLOAD, t.payload) + after4;
    let after2 = optional_varint_field(TUPLE_ERROR, t.error as u64) + after3;
    let after1 = optional_varint_field(TUPLE_LATTICE_TYPE, t.lattice_type as u64) + after2;

    let t0 = empty_tuple();
    let t1 = KeyTupleView { key: t.key, ..t0 };
    let t2 = KeyTupleView { lattice_type: t.lattice_type, ..t1 };
    let t3 = KeyTupleView { error: t.error, ..t2 };
    let t4 = KeyTupleView { payload: t.payload, ..t3 };
    let t5 = KeyTupleView { address_cache_size: t.address_cache_size, ..t4 };

    lemma_tuple_bytes_nesting(t);
    lemma_tuple_fold_key(t.key, after1, t0);
    assert(tuple_parse(tuple_bytes(t)) == tuple_fold(after1, t1));
    assert(tuple_fold(after1, t1) == tuple_fold(after2, t2)) by {
        lemma_tuple_fold_varint(TUPLE_LATTICE_TYPE, t.lattice_type as u64, after2, t1);
    }
    assert(tuple_fold(after2, t2) == tuple_fold(after3, t3)) by {
        lemma_tuple_fold_varint(TUPLE_ERROR, t.error as u64, after3, t2);
    }
    assert(tuple_fold(after3, t3) == tuple_fold(after4, t4)) by {
        lemma_tuple_fold_bytes(TUPLE_PAYLOAD, t.payload, after4, t3);
        assert(t.payload.len() == 0 ==> t.payload =~= Seq::<u8>::empty());
    }
    assert(tuple_fold(after4, t4) == tuple_fold(after5, t5)) by {
        lemma_tuple_fold_varint(TUPLE_CACHE_SIZE, t.address_cache_size as u64, after5, t4);
    }
    assert(tuple_fold(after5, t5) == tuple_fold(none, t)) by {
        lemma_tuple_fold_varint(TUPLE_INVALIDATE, flag_bit(t.invalidate), none, t5);
    }
}

/// In a request, reading an integer field and what follows it is merging the field, then
/// reading what follows.
pub proof fn lemma_request_fold_varint(tag: u32, v: u64, rest: Seq<u8>, acc: RequestView)
    requires
        1 <= tag < TAG_LIMIT,
    ensures
        request_fold(optional_varint_field(tag, v) + rest, acc) == if v == 0 {
            request_fold(rest, acc)
        } else {
            match request_merge(acc, Field { tag, value: FieldValue::Varint(v) }) {
                Some(next) => request_fold(rest, next),
                None => None,
            }
        },
{
    let s = optional_varint_field(tag, v) + rest;
    if v == 0 {
        assert(s =~= rest);
    } else {
        lemma_varint_field_round_trip(tag, v, rest, NESTING_BUDGET as nat);
        lemma_field_prefix_bounds(s, NESTING_BUDGET as nat);
        assert(s.skip(optional_varint_field(tag, v).len() as int) =~= rest);
    }
}

/// In a request, reading a bytes field and what follows it is merging the field, then
/// reading what follows.
pub proof fn lemma_request_fold_bytes(tag: u32, b: Seq<u8>, rest: Seq<u8>, acc: RequestView)
    requires
        1 <= tag < TAG_LIMIT,
        b.len() <= u64::MAX,
    ensures
        request_fold(bytes_field(tag, b) + rest, acc) == match request_merge(
            acc,
            Field { tag, value: FieldValue::Bytes(b) },
        ) {
            Some(next) => request_fold(rest, next),
            None => None,
        },
{
    let s = bytes_field(tag, b) + rest;
    lemma_bytes_field_round_trip(tag, b, rest, NESTING_BUDGET as nat);
    lemma_field_prefix_bounds(s, NESTING_BUDGET as nat);
    assert(s.skip(bytes_field(tag, b).len() as int) =~= rest);
}

/// In a request, reading the wire form of some tuples and what follows it is adding the
/// tuples at the end, then reading what follows.
pub proof fn lemma_request_fold_tuples(tuples: Seq<KeyTupleView>, rest: Seq<u8>, acc: RequestView)
    requires
        tuples_fit(tuples),
    ensures
        request_fold(tuples_bytes(REQUEST_TUPLES, tuples) + rest, acc) == request_fold(
            rest,
            RequestView { tuples: acc.tuples + tuples, ..acc },
        ),
    decreases tuples.len(),
{
    if tuples.len() == 0 {
        assert(tuples_bytes(REQUEST_TUPLES, tuples) + rest =~= rest);
        assert(acc.tuples + tuples =~= acc.tuples);
    } else {
        let front = tuples.drop_last();
        let last = tuples.last();
        let last_field = bytes_field(REQUEST_TUPLES, tuple_bytes(last));
        assert(tuples_bytes(REQUEST_TUPLES, tuples) + rest =~= tuples_bytes(REQUEST_TUPLES, front)
            + (last_field + rest));
        lemma_request_fold_tuples(front, last_field + rest, acc);
        let mid = RequestView { tuples: acc.tuples + front, ..acc };
        lemma_request_fold_bytes(REQUEST_TUPLES, tuple_bytes(last), rest, mid);
        lemma_tuple_round_trip(last);
        assert(mid.tuples.push(last) =~= acc.tuples + tuples);
    }
}

/// Reading the wire form of a request gives the request back.
pub proof fn lemma_request_round_trip(r: RequestView)
    requires
        request_fits(r),
    ensures
        request_parse(request_bytes(r)) == Some(r),
{
    let op_type = optional_varint_field(REQUEST_OP_TYPE, r.op_type as u64);
    let tuples = tuples_bytes(REQUEST_TUPLES, r.tuples);
    let reply_bytes = encode_utf8(r.reply_address);
    let reply_address = optional_bytes_field(REQUEST_REPLY_ADDRESS, reply_bytes);
    let id_bytes = encode_utf8(r.request_id);
    let request_id = optional_bytes_field(REQUEST_ID, id_bytes);
    let none = Seq::<u8>::empty();
    let after3 = request_id + none;
    let after2 = reply_address + after3;
    let after1 = tuples + after2;
    assert(request_bytes(r) =~= op_type + after1);

    let r0 = empty_request();
    let r1 = RequestView { op_type: r.op_type, ..r0 };
    let r2 = RequestView { tuples: r.tuples, ..r1 };
    let r3 = RequestView { reply_address: r.reply_address, ..r2 };

    lemma_request_fold_varint(REQUEST_OP_TYPE, r.op_type as u64, after1, r0);
    assert(request_fold(op_type + after1, r0) == request_fold(after1, r1));

    lemma_request_fold_tuples(r.tuples, after2, r1);
    assert(r1.tuples + r.tuples =~= r.tuples);
    assert(request_fold(after1, r1) == request_fold(after2, r2));

    encode_utf8_valid_utf8(r.reply_address);
    encode_utf8_decode_utf8(r.reply_address);
    if reply_bytes.len() == 0 {
        lemma_text_of_no_bytes(r.reply_address);
        assert(after2 =~= after3);
    } else {
        lemma_request_fold_bytes(REQUEST_REPLY_ADDRESS, reply_bytes, after3, r2);
    }
    assert(request_fold(after2, r2) == request_fold(after3, r3));

    encode_utf8_valid_utf8(r.request_id);
    encode_utf8_decode_utf8(r.request_id);
    if id_bytes.len() == 0 {
        lemma_text_of_no_bytes(r.request_id);
        assert(after3 =~= none);
    } else {
        lemma_request_fold_bytes(REQUEST_ID, id_bytes, none, r3);
    }
    assert(request_fold(after3, r3) == request_fold(none, r));
}

/// In a response, reading the wire form of some tuples and what follows it is adding the
/// tuples at the end, then reading what follows.
pub proof fn lemma_response_fold_tuples(
    tuples: Seq<KeyTupleView>,
    rest: Seq<u8>,
    acc: ResponseView,
)
    requires
        tuples_fit(tuples),
    ensures
        response_fold(tuples_bytes(RESPONSE_TUPLES, tuples) + rest, acc) == response_fold(
            rest,
            ResponseView { tuples: acc.tuples + tuples },
        ),
    decreases tuples.len(),
{
    if tuples.len() == 0 {
        assert(tuples_bytes(RESPONSE_TUPLES, tuples) + rest =~= rest);
        assert(acc.tuples + tuples =~= acc.tuples);
    } else {
        let front = tuples.drop_last();
        let last = tuples.last();
        let body = tuple_bytes(last);
        let last_field = bytes_field(RESPONSE_TUPLES, body);
        assert(tuples_bytes(RESPONSE_TUPLES, tuples) + rest =~= tuples_bytes(
            RESPONSE_TUPLES,
            front,
        ) + (last_field + rest));
        lemma_response_fold_tuples(front, last_field + rest, acc);
        let mid = ResponseView { tuples: acc.tuples + front };
        let s = last_field + rest;
        lemma_bytes_field_round_trip(RESPONSE_TUPLES, body, rest, NESTING_BUDGET as nat);
        lemma_field_prefix_bounds(s, NESTING_BUDGET as nat);
        assert(s.skip(last_field.len() as int) =~= rest);
        lemma_tuple_round_trip(last);
        assert(mid.tuples.push(last) =~= acc.tuples + tuples);
    }
}

/// Reading the wire form of a response gives the response back: the same tuples, in the
/// same order.
pub proof fn lemma_response_round_trip(r: ResponseView)
    requires
        tuples_fit(r.tuples),
    ensures
        response_parse(response_bytes(r)) == Some(r),
{
    let none = Seq::<u8>::empty();
    assert(response_bytes(r) + none =~= response_bytes(r));
    lemma_response_fold_tuples(r.tuples, none, empty_response());
    assert(empty_response().tuples + r.tuples =~= r.tuples);
}

/// The response that carries the tuples of a request reads back, from its wire form, with
/// those tuples.
pub proof fn lemma_response_mirrors_request(request: RequestView)
    requires
        request_fits(request),
    ensures
        response_parse(response_bytes(ResponseView { tuples: request.tuples })) == Some(
            ResponseView { tuples: request.tuples },
        ),
{
    lemma_response_round_trip(ResponseView { tuples: request.tuples });
}

/// Appends a field that holds `text` to `buf`, unless the text is empty.
pub fn put_optional_text_field(tag: u32, text: &str, buf: &mut Vec<u8>)
    ensures
        final(buf)@ == old(buf)@ + optional_bytes_field(tag, encode_utf8(text@)),
{
    put_optional_bytes_field(tag, text.as_bytes(), buf);
}

/// Appends the wire form of `tuples` to `buf`: one field for each tuple.
pub fn put_tuples(tag: u32, tuples: &[KeyTuple], buf: &mut Vec<u8>)
    ensures
        final(buf)@ == old(buf)@ + tuples_bytes(tag, tuple_views(tuples@)),
{
    let ghost views = tuple_views(tuples@);
    let mut i: usize = 0;
    assert(views.take(0) =~= Seq::<KeyTupleView>::empty());
    assert(buf@ =~= old(buf)@ + tuples_bytes(tag, views.take(0)));
    while i < tuples.len()
        invariant
            i <= tuples.len(),
            views == tuple_views(tuples@),
            buf@ == old(buf)@ + tuples_bytes(tag, views.take(i as int)),
        decreases tuples.len() - i,
    {
        let body = tuples[i].encode();
        put_bytes_field(tag, body.as_slice(), buf);
        proof {
            let upto = views.take(i + 1);
            assert(upto.drop_last() =~= views.take(i as int));
            assert(upto.last() == tuples@[i as int]@);
            assert(buf@ =~= old(buf)@ + tuples_bytes(tag, upto));
        }
        i = i + 1;
    }
    assert(views.take(tuples.len() as int) =~= views);
}

impl KeyTuple {
    /// The wire form of the tuple.
    pub fn encode(&self) -> (wire: Vec<u8>)
        ensures
            wire@ == tuple_bytes(self@),
    {
        let mut wire: Vec<u8> = Vec::new();
        put_optional_text_field(TUPLE_KEY, self.key.as_str(), &mut wire);
        put_optional_varint_field(TUPLE_LATTICE_TYPE, self.lattice_type as u64, &mut wire);
        put_optional_varint_field(TUPLE_ERROR, self.error as u64, &mut wire);
        put_optional_bytes_field(TUPLE_PAYLOAD, self.payload.as_slice(), &mut wire);
        put_optional_varint_field(TUPLE_CACHE_SIZE, self.address_cache_size as u64, &mut wire);
        let bit: u64 = if self.invalidate {
            1
        } else {
            0
        };
        put_optional_varint_field(TUPLE_INVALIDATE, bit, &mut wire);
        assert(wire@ =~= tuple_bytes(self@));
        wire
    }

    /// Reads a tuple from its wire form, as it stands inside a request or a response. Fails
    /// exactly on bytes that are not the wire form of a tuple.
    pub fn decode(wire: &[u8]) -> (r: Result<KeyTuple, Malformed>)
        ensures
            match r {
                Ok(t) => tuple_parse(wire@) == Some(t@),
                Err(_) => tuple_parse(wire@) is None,
            },
    {
        let mut tuple = KeyTuple {
            key: String::new(),
            lattice_type: 0,
            error: 0,
            payload: Vec::new(),
            address_cache_size: 0,
            invalidate: false,
        };
        let mut at: &[u8] = wire;
        while at.len() > 0
            invariant
                tuple_parse(wire@) == tuple_fold(at@, tuple@),
            decreases at.len(),
        {
            let (tag, token, rest) = match take_field(at, TUPLE_BUDGET) {
                Ok(taken) => taken,
                Err(e) => {
                    return Err(e);
                },
            };
            if tag == TUPLE_KEY {
                match token {
                    Token::Bytes(b) => match text_of(b) {
                        Some(text) => {
                            tuple.key = text;
                        },
                        None => {
                            return Err(Malformed);
                        },
                    },
                    _ => {
                        return Err(Malformed);
                    },
                }
            } else if tag == TUPLE_LATTICE_TYPE {
                match token {
                    Token::Varint(v) => {
                        tuple.lattice_type = (v % 0x1_0000_0000) as u32;
                    },
                    _ => {
                        return Err(Malformed);
                    },
                }
            } else if tag == TUPLE_ERROR {
                match token {
                    Token::Varint(v) => {
                        tuple.error = (v % 0x1_0000_0000) as u32;
                    },
                    _ => {
                        return Err(Malformed);
                    },
                }
            } else if tag == TUPLE_PAYLOAD {
                match token {
                    Token::Bytes(b) => {
                        tuple.payload = vstd::slice::slice_to_vec(b);
                    },
                    _ => {
                        return Err(Malformed);
                    },
                }
            } else if tag == TUPLE_CACHE_SIZE {
                match token {
                    Token::Varint(v) => {
                        tuple.address_cache_size = (v % 0x1_0000_0000) as u32;
                    },
                    _ => {
                        return Err(Malformed);
                    },
                }
            } else if tag == TUPLE_INVALIDATE {
                match token {
                    Token::Varint(v) => {
                        tuple.invalidate = v != 0;
                    },
                    _ => {
                        return Err(Malformed);
                    },
                }
            }
            at = rest;
        }
        Ok(tuple)
    }
}

/// The wire form of the request with the given parts.
pub fn encode_request(op_type: u32, tuples: &[KeyTuple], reply_address: &str, request_id: &str) -> (wire:
    Vec<u8>)
    ensures
        wire@ == request_bytes(
            RequestView {
                op_type,
                tuples: tuple_views(tuples@),
                reply_address: reply_address@,
                request_id: request_id@,
            },
        ),
{
    let mut wire: Vec<u8> = Vec::new();
    put_optional_varint_field(REQUEST_OP_TYPE, op_type as u64, &mut wire);
    put_tuples(REQUEST_TUPLES, tuples, &mut wire);
    put_optional_text_field(REQUEST_REPLY_ADDRESS, reply_address, &mut wire);
    put_optional_text_field(REQUEST_ID, request_id, &mut wire);
    assert(wire@ =~= request_bytes(
        RequestView {
            op_type,
            tuples: tuple_views(tuples@),
            reply_address: reply_address@,
            request_id: request_id@,
        },
    ));
    wire
}

/// Reads a request from its wire form. Fails exactly on bytes that are not the wire form of
/// a request.
pub fn decode_request(wire: &[u8]) -> (r: Result<Request, Malformed>)
    ensures
        match r {
            Ok(request) => request_parse(wire@) == Some(request@),
            Err(_) => request_parse(wire@) is None,
        },
{
    let mut op_type: u32 = 0;
    let mut tuples: Vec<KeyTuple> = Vec::new();
    let mut reply_address = String::new();
    let mut request_id = String::new();
    let mut at: &[u8] = wire;
    assert(tuple_views(tuples@) =~= Seq::<KeyTupleView>::empty());
    while at.len() > 0
        invariant
            request_parse(wire@) == request_fold(
                at@,
                (RequestView {
                    op_type,
                    tuples: tuple_views(tuples@),
                    reply_address: reply_address@,
                    request_id: request_id@,
                }),
            ),
        decreases at.len(),
    {
        let (tag, token, rest) = match take_field(at, NESTING_BUDGET) {
            Ok(taken) => taken,
            Err(e) => {
                return Err(e);
            },
        };
        if tag == REQUEST_OP_TYPE {
            match token {
                Token::Varint(v) => {
                    op_type = (v % 0x1_0000_0000) as u32;
                },
                _ => {
                    return Err(Malformed);
                },
            }
        } else if tag == REQUEST_TUPLES {
            match token {
                Token::Bytes(b) => match KeyTuple::decode(b) {
                    Ok(tuple) => {
                        let ghost before = tuple_views(tuples@);
                        tuples.push(tuple);
                        assert(tuple_views(tuples@) =~= before.push(tuple@));
                    },
                    Err(e) => {
                        return Err(e);
                    },
                },
                _ => {
                    return Err(Malformed);
                },
            }
        } else if tag == REQUEST_REPLY_ADDRESS {
            match token {
                Token::Bytes(b) => match text_of(b) {
                    Some(text) => {
                        reply_address = text;
                    },
                    None => {
                        return Err(Malformed);
                    },
                },
                _ => {
                    return Err(Malformed);
                },
            }
        } else if tag == REQUEST_ID {
            match token {
                Token::Bytes(b) => match text_of(b) {
                    Some(text) => {
                        request_id = text;
                    },
                    None => {
                        return Err(Malformed);
                    },
                },
                _ => {
                    return Err(Malformed);
                },
            }
        }
        at = rest;
    }
    Ok(Request { op_type, tuples, reply_address, request_id })
}

/// The wire form of the response with the given tuples.
pub fn encode_response(tuples: &[KeyTuple]) -> (wire: Vec<u8>)
    ensures
        wire@ == response_bytes(ResponseView { tuples: tuple_views(tuples@) }),
{
    let mut wire: Vec<u8> = Vec::new();
    put_tuples(RESPONSE_TUPLES, tuples, &mut wire);
    assert(wire@ =~= response_bytes(ResponseView { tuples: tuple_views(tuples@) }));
    wire
}

/// Reads a response from its wire form. Fails exactly on bytes that are not the wire form of
/// a response: bytes that break off inside a field, or hold a field that is malformed.
pub fn decode_response(wire: &[u8]) -> (r: Result<Response, Malformed>)
    ensures
        match r {
            Ok(response) => response_parse(wire@) == Some(response@),
            Err(_) => response_parse(wire@) is None,
        },
{
    let mut tuples: Vec<KeyTuple> = Vec::new();
    let mut at: &[u8] = wire;
    assert(tuple_views(tuples@) =~= Seq::<KeyTupleView>::empty());
    while at.len() > 0
        invariant
            response_parse(wire@) == response_fold(
                at@,
                (ResponseView { tuples: tuple_views(tuples@) }),
            ),
        decreases at.len(),
    {
        let (tag, token, rest) = match take_field(at, NESTING_BUDGET) {
            Ok(taken) => taken,
            Err(e) => {
                return Err(e);
            },
        };
        if tag == RESPONSE_TUPLES {
            match token {
                Token::Bytes(b) => match KeyTuple::decode(b) {
                    Ok(tuple) => {
                        let ghost before = tuple_views(tuples@);
                        tuples.push(tuple);
                        assert(tuple_views(tuples@) =~= before.push(tuple@));
                    },
                    Err(e) => {
                        return Err(e);
                    },
                },
                _ => {
                    return Err(Malformed);
                },
            }
        }
        at = rest;
    }
    Ok(Response { tuples })
}

} // verus!
