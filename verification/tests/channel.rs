use crisper_client::envelope::ValueEnvelope;
use crisper_client::error::KvsError;
use crisper_client::kvs::crisper::{CrisperKVSClient, Exchange};
use crisper_client::reqresp::{
    decode_request, encode_request, encode_response, KeyTuple, LATTICE_LWW, NO_ERROR, OP_GET,
    OP_PUT,
};
use crisper_client::task::Existence;

fn channel() -> CrisperKVSClient {
    CrisperKVSClient::new(4, String::from("tcp://localhost:7004")).expect("a channel")
}

fn tuple(key: &str, payload: Vec<u8>) -> KeyTuple {
    KeyTuple {
        key: String::from(key),
        lattice_type: LATTICE_LWW,
        error: NO_ERROR,
        payload,
        address_cache_size: 0,
        invalidate: false,
    }
}

#[test]
fn new_channel_has_sent_nothing() {
    let c = channel();
    assert_eq!(c.client_id(), 4);
    assert_eq!(c.next_request_id(), 0);
    assert_eq!(c.reply_address(), "tcp://localhost:7004");
}

#[test]
fn put_request_carries_the_value_in_an_envelope() {
    let mut c = channel();
    let frame = c.begin_put(b"a", b"1").expect("a request");
    let envelope = ValueEnvelope { timestamp: 0, value: b"1".to_vec() };
    let expected =
        encode_request(OP_PUT, &[tuple("a", envelope.encode())], "tcp://localhost:7004", "0");
    assert_eq!(frame, expected);
    let mut bytes = vec![0x08, 0x02, 0x12, 0x0a];
    bytes.extend_from_slice(&[0x0a, 0x01, 0x61, 0x10, 0x01, 0x22, 0x03, 0x12, 0x01, 0x31]);
    bytes.extend_from_slice(&[0x1a, 0x14]);
    bytes.extend_from_slice(b"tcp://localhost:7004");
    bytes.extend_from_slice(&[0x22, 0x01, 0x30]);
    assert_eq!(frame, bytes);
}

#[test]
fn put_request_takes_the_counter_as_timestamp_and_identifier() {
    let mut c = channel();
    for _ in 0..12 {
        c.begin_get(b"k").expect("a request");
    }
    let frame = c.begin_put(b"key", b"value").expect("a request");
    let request = decode_request(&frame).expect("a well-formed request");
    assert_eq!(request.op_type, OP_PUT);
    assert_eq!(request.request_id, "12");
    assert_eq!(request.reply_address, "tcp://localhost:7004");
    assert_eq!(request.tuples.len(), 1);
    assert_eq!(request.tuples[0].key, "key");
    assert_eq!(request.tuples[0].lattice_type, LATTICE_LWW);
    assert_eq!(request.tuples[0].error, NO_ERROR);
    assert_eq!(
        ValueEnvelope::decode(&request.tuples[0].payload),
        Ok(ValueEnvelope { timestamp: 12, value: b"value".to_vec() })
    );
}

#[test]
fn get_request_has_no_payload() {
    let mut c = channel();
    let frame = c.begin_get(b"a").expect("a request");
    let expected = encode_request(OP_GET, &[tuple("a", Vec::new())], "tcp://localhost:7004", "0");
    assert_eq!(frame, expected);
    let request = decode_request(&frame).expect("a well-formed request");
    assert_eq!(request.op_type, OP_GET);
    assert_eq!(request.tuples, vec![tuple("a", Vec::new())]);
}

#[test]
fn identifiers_grow_across_puts_and_gets() {
    let mut c = channel();
    let mut seen: Vec<String> = Vec::new();
    for i in 0..50u64 {
        assert_eq!(c.next_request_id(), i);
        let frame = if i % 3 == 0 {
            c.begin_put(b"k", b"v").expect("a request")
        } else {
            c.begin_get(b"k").expect("a request")
        };
        let request = decode_request(&frame).expect("a well-formed request");
        assert_eq!(request.request_id, i.to_string());
        assert!(!seen.contains(&request.request_id));
        seen.push(request.request_id);
    }
    assert_eq!(c.next_request_id(), 50);
}

#[test]
fn identifier_is_used_up_by_a_key_that_is_not_text() {
    let mut c = channel();
    assert_eq!(c.begin_put(&[0xff, 0xfe], b"v"), Err(KvsError::CodecError));
    assert_eq!(c.next_request_id(), 1);
    assert_eq!(c.begin_get(&[0xc3]), Err(KvsError::CodecError));
    assert_eq!(c.next_request_id(), 2);
    let frame = c.begin_get(b"k").expect("a request");
    assert_eq!(decode_request(&frame).expect("a well-formed request").request_id, "2");
}

#[test]
fn empty_key_and_value_are_sent() {
    let mut c = channel();
    let frame = c.begin_put(b"", b"").expect("a request");
    let request = decode_request(&frame).expect("a well-formed request");
    assert_eq!(request.tuples.len(), 1);
    assert_eq!(request.tuples[0].key, "");
    assert_eq!(request.tuples[0].payload, Vec::<u8>::new());
}

#[test]
fn put_is_confirmed_by_any_well_formed_response() {
    let reply = encode_response(&[tuple("a", Vec::new())]);
    assert_eq!(CrisperKVSClient::finish_put(&Exchange::Reply(reply)), Ok(Existence::Present));
    assert_eq!(
        CrisperKVSClient::finish_put(&Exchange::Reply(Vec::new())),
        Ok(Existence::Present)
    );
}

#[test]
fn put_fails_on_a_malformed_response() {
    assert_eq!(
        CrisperKVSClient::finish_put(&Exchange::Reply(vec![0x0a, 0x05, 0x00])),
        Err(KvsError::CodecError)
    );
}

#[test]
fn put_fails_when_the_transport_failed() {
    assert_eq!(CrisperKVSClient::finish_put(&Exchange::Failed), Err(KvsError::ConnectionError));
}

#[test]
fn get_miss_on_a_response_without_tuples() {
    let mut c = channel();
    c.begin_get(b"never-written").expect("a request");
    let reply = encode_response(&[]);
    assert_eq!(CrisperKVSClient::finish_get(&Exchange::Reply(reply)), Ok(None));
}

#[test]
fn get_returns_the_value_of_the_first_tuple() {
    let first = ValueEnvelope { timestamp: 8, value: b"one".to_vec() };
    let second = ValueEnvelope { timestamp: 9, value: b"two".to_vec() };
    let reply = encode_response(&[tuple("a", first.encode()), tuple("a", second.encode())]);
    assert_eq!(
        CrisperKVSClient::finish_get(&Exchange::Reply(reply)),
        Ok(Some(b"one".to_vec()))
    );
}

#[test]
fn get_of_a_tuple_without_payload_is_an_empty_value() {
    let reply = encode_response(&[tuple("a", Vec::new())]);
    assert_eq!(CrisperKVSClient::finish_get(&Exchange::Reply(reply)), Ok(Some(Vec::new())));
}

#[test]
fn get_fails_on_a_payload_that_is_no_envelope() {
    let reply = encode_response(&[tuple("a", vec![0x08])]);
    assert_eq!(CrisperKVSClient::finish_get(&Exchange::Reply(reply)), Err(KvsError::CodecError));
}

#[test]
fn get_fails_on_a_malformed_response() {
    assert_eq!(
        CrisperKVSClient::finish_get(&Exchange::Reply(vec![0x0a])),
        Err(KvsError::CodecError)
    );
}

#[test]
fn get_fails_when_the_transport_failed() {
    assert_eq!(CrisperKVSClient::finish_get(&Exchange::Failed), Err(KvsError::ConnectionError));
}

#[test]
fn delete_is_unknown_and_uses_no_identifier() {
    let mut c = channel();
    assert_eq!(c.delete(b"a"), Ok(Existence::Unknown));
    assert_eq!(c.delete(&[0xff]), Ok(Existence::Unknown));
    assert_eq!(c.next_request_id(), 0);
}
