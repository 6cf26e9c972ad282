use crisper_client::error::Malformed;
use crisper_client::reqresp::{
    decode_request, decode_response, encode_request, encode_response, KeyTuple, Request, Response,
    LATTICE_LWW, NO_ERROR, OP_GET, OP_PUT,
};

fn tuple(key: &str, payload: &[u8]) -> KeyTuple {
    KeyTuple {
        key: String::from(key),
        lattice_type: LATTICE_LWW,
        error: NO_ERROR,
        payload: payload.to_vec(),
        address_cache_size: 0,
        invalidate: false,
    }
}

fn full_tuple() -> KeyTuple {
    KeyTuple {
        key: String::from("k\u{e9}y"),
        lattice_type: 3,
        error: 2,
        payload: vec![0, 1, 2, 255],
        address_cache_size: 70000,
        invalidate: true,
    }
}

fn empty_tuple() -> KeyTuple {
    KeyTuple {
        key: String::new(),
        lattice_type: 0,
        error: 0,
        payload: Vec::new(),
        address_cache_size: 0,
        invalidate: false,
    }
}

#[test]
fn operation_types() {
    assert_eq!(OP_GET, 1);
    assert_eq!(OP_PUT, 2);
    assert_eq!(LATTICE_LWW, 1);
    assert_eq!(NO_ERROR, 0);
}

#[test]
fn tuple_wire_form() {
    assert_eq!(
        tuple("a", &[0x12, 0x01, 0x31]).encode(),
        vec![0x0a, 0x01, 0x61, 0x10, 0x01, 0x22, 0x03, 0x12, 0x01, 0x31]
    );
}

#[test]
fn tuple_wire_form_with_every_field() {
    assert_eq!(
        full_tuple().encode(),
        vec![
            0x0a, 0x04, 0x6b, 0xc3, 0xa9, 0x79, 0x10, 0x03, 0x18, 0x02, 0x22, 0x04, 0x00, 0x01,
            0x02, 0xff, 0x28, 0xf0, 0xa2, 0x04, 0x30, 0x01,
        ]
    );
}

#[test]
fn tuple_without_anything_is_empty() {
    assert_eq!(empty_tuple().encode(), Vec::<u8>::new());
    assert_eq!(KeyTuple::decode(&[]), Ok(empty_tuple()));
}

#[test]
fn tuple_round_trip() {
    for written in [tuple("a", b"1"), tuple("", b""), full_tuple(), empty_tuple()] {
        assert_eq!(KeyTuple::decode(&written.encode()), Ok(written));
    }
}

#[test]
fn tuple_integers_keep_their_low_32_bits() {
    // lattice type 2^32 + 5
    assert_eq!(
        KeyTuple::decode(&[0x10, 0x85, 0x80, 0x80, 0x80, 0x10]),
        Ok(KeyTuple { lattice_type: 5, ..empty_tuple() })
    );
}

#[test]
fn tuple_flag_is_set_by_any_integer_but_zero() {
    assert_eq!(KeyTuple::decode(&[0x30, 0x02]), Ok(KeyTuple { invalidate: true, ..empty_tuple() }));
    assert_eq!(KeyTuple::decode(&[0x30, 0x00]), Ok(empty_tuple()));
}

#[test]
fn tuple_rejects_a_key_that_is_not_text() {
    assert_eq!(KeyTuple::decode(&[0x0a, 0x02, 0xc3, 0x28]), Err(Malformed));
}

#[test]
fn tuple_rejects_a_known_field_of_the_wrong_kind() {
    assert_eq!(KeyTuple::decode(&[0x08, 0x01]), Err(Malformed));
    assert_eq!(KeyTuple::decode(&[0x12, 0x01, 0x01]), Err(Malformed));
    assert_eq!(KeyTuple::decode(&[0x1a, 0x00]), Err(Malformed));
    assert_eq!(KeyTuple::decode(&[0x20, 0x01]), Err(Malformed));
    assert_eq!(KeyTuple::decode(&[0x2a, 0x00]), Err(Malformed));
    assert_eq!(KeyTuple::decode(&[0x32, 0x00]), Err(Malformed));
}

#[test]
fn tuple_nests_groups_one_level_less_than_a_message() {
    let mut deep = Vec::new();
    for _ in 0..99 {
        deep.push(0x3b);
    }
    for _ in 0..99 {
        deep.push(0x3c);
    }
    assert_eq!(KeyTuple::decode(&deep), Ok(empty_tuple()));
    let mut deeper = vec![0x3b];
    deeper.extend_from_slice(&deep);
    deeper.push(0x3c);
    assert_eq!(KeyTuple::decode(&deeper), Err(Malformed));
}

#[test]
fn request_wire_form() {
    let wire = encode_request(OP_PUT, &[tuple("a", &[0x12, 0x01, 0x31])], "tcp://h:1", "0");
    let mut expected = vec![0x08, 0x02, 0x12, 0x0a];
    expected.extend_from_slice(&[0x0a, 0x01, 0x61, 0x10, 0x01, 0x22, 0x03, 0x12, 0x01, 0x31]);
    expected.extend_from_slice(&[0x1a, 0x09]);
    expected.extend_from_slice(b"tcp://h:1");
    expected.extend_from_slice(&[0x22, 0x01, 0x30]);
    assert_eq!(wire, expected);
}

#[test]
fn request_round_trip() {
    let tuples = vec![tuple("a", b"1"), full_tuple(), empty_tuple()];
    let wire = encode_request(OP_GET, &tuples, "tcp://localhost:7000", "41");
    assert_eq!(
        decode_request(&wire),
        Ok(Request {
            op_type: OP_GET,
            tuples,
            reply_address: String::from("tcp://localhost:7000"),
            request_id: String::from("41"),
        })
    );
}

#[test]
fn request_codec_does_not_judge_the_request() {
    let wire = encode_request(77, &[], "", "");
    assert_eq!(wire, vec![0x08, 77]);
    assert_eq!(
        decode_request(&wire),
        Ok(Request {
            op_type: 77,
            tuples: Vec::new(),
            reply_address: String::new(),
            request_id: String::new(),
        })
    );
}

#[test]
fn request_rejects_text_that_is_not_text() {
    assert_eq!(decode_request(&[0x1a, 0x01, 0xff]), Err(Malformed));
    assert_eq!(decode_request(&[0x22, 0x01, 0xff]), Err(Malformed));
}

#[test]
fn request_rejects_a_malformed_tuple() {
    assert_eq!(decode_request(&[0x12, 0x02, 0x0a, 0x05]), Err(Malformed));
}

#[test]
fn response_wire_form() {
    let wire = encode_response(&[tuple("a", b""), empty_tuple()]);
    assert_eq!(wire, vec![0x0a, 0x05, 0x0a, 0x01, 0x61, 0x10, 0x01, 0x0a, 0x00]);
}

#[test]
fn response_without_tuples_is_empty() {
    assert_eq!(encode_response(&[]), Vec::<u8>::new());
    assert_eq!(decode_response(&[]), Ok(Response { tuples: Vec::new() }));
}

#[test]
fn response_round_trip_keeps_the_tuples_and_their_order() {
    let tuples = vec![tuple("b", b"2"), tuple("a", b"1"), full_tuple(), empty_tuple(), tuple("a", b"1")];
    assert_eq!(decode_response(&encode_response(&tuples)), Ok(Response { tuples }));
}

#[test]
fn response_mirrors_the_tuples_of_a_request() {
    let sent = vec![tuple("a", &[0x12, 0x01, 0x31]), tuple("b", b"")];
    let request = decode_request(&encode_request(OP_PUT, &sent, "tcp://localhost:7000", "3"))
        .expect("the request reads back");
    let response = decode_response(&encode_response(&request.tuples)).expect("the response reads");
    assert_eq!(response.tuples, sent);
}

#[test]
fn response_steps_over_fields_it_does_not_know() {
    // tag 2, text "17"; tag 4, integer 1
    let mut wire = vec![0x12, 0x02, 0x31, 0x37];
    wire.extend_from_slice(&encode_response(&[tuple("a", b"")]));
    wire.extend_from_slice(&[0x20, 0x01]);
    assert_eq!(decode_response(&wire), Ok(Response { tuples: vec![tuple("a", b"")] }));
}

#[test]
fn response_rejects_truncated_bytes() {
    let wire = encode_response(&[tuple("a", b"1"), full_tuple()]);
    for cut in 1..wire.len() {
        let truncated = &wire[..cut];
        // a cut between two tuples leaves a shorter, well-formed response
        if cut == 10 {
            assert_eq!(
                decode_response(truncated),
                Ok(Response { tuples: vec![tuple("a", b"1")] })
            );
        } else {
            assert_eq!(decode_response(truncated), Err(Malformed));
        }
    }
}

#[test]
fn response_rejects_a_tuple_that_overruns_its_length() {
    // the tuple claims 2 bytes, its key claims 5
    assert_eq!(decode_response(&[0x0a, 0x02, 0x0a, 0x05, 0x61, 0x62, 0x63]), Err(Malformed));
}

#[test]
fn response_rejects_tuples_of_the_wrong_kind() {
    assert_eq!(decode_response(&[0x08, 0x01]), Err(Malformed));
}
