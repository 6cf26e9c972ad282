use crisper_client::envelope::ValueEnvelope;
use crisper_client::error::Malformed;

fn envelope(timestamp: u64, value: &[u8]) -> ValueEnvelope {
    ValueEnvelope { timestamp, value: value.to_vec() }
}

#[test]
fn envelope_wire_form_has_timestamp_then_value() {
    assert_eq!(envelope(1, b"1").encode(), vec![0x08, 0x01, 0x12, 0x01, 0x31]);
}

#[test]
fn envelope_timestamp_is_a_variable_length_integer() {
    assert_eq!(envelope(300, b"").encode(), vec![0x08, 0xac, 0x02]);
    assert_eq!(
        envelope(u64::MAX, b"").encode(),
        vec![0x08, 0xff, 0xff, 0xff, 0xff, 0xff, 0xff, 0xff, 0xff, 0xff, 0x01]
    );
}

#[test]
fn envelope_leaves_out_a_zero_timestamp() {
    assert_eq!(envelope(0, b"1").encode(), vec![0x12, 0x01, 0x31]);
}

#[test]
fn envelope_leaves_out_an_empty_value() {
    assert_eq!(envelope(5, b"").encode(), vec![0x08, 0x05]);
}

#[test]
fn envelope_without_anything_is_empty() {
    assert_eq!(envelope(0, b"").encode(), Vec::<u8>::new());
    assert_eq!(ValueEnvelope::decode(&[]), Ok(envelope(0, b"")));
}

#[test]
fn envelope_round_trip() {
    let values: [&[u8]; 5] = [b"", b"1", b"hello", &[0u8; 200], &[0xff, 0x00, 0x80, 0x7f]];
    let timestamps = [0u64, 1, 127, 128, 16383, 16384, 1 << 32, u64::MAX - 1, u64::MAX];
    for value in values.iter() {
        for timestamp in timestamps.iter() {
            let written = envelope(*timestamp, value);
            assert_eq!(ValueEnvelope::decode(&written.encode()), Ok(written));
        }
    }
}

#[test]
fn envelope_round_trip_of_a_long_value() {
    let value: Vec<u8> = (0..70000u32).map(|i| (i % 251) as u8).collect();
    let written = ValueEnvelope { timestamp: 9, value };
    let wire = written.encode();
    assert_eq!(&wire[..6], &[0x08, 0x09, 0x12, 0xf0, 0xa2, 0x04]);
    assert_eq!(ValueEnvelope::decode(&wire), Ok(written));
}

#[test]
fn envelope_fields_may_come_in_any_order() {
    assert_eq!(ValueEnvelope::decode(&[0x12, 0x01, 0x31, 0x08, 0x07]), Ok(envelope(7, b"1")));
}

#[test]
fn envelope_keeps_the_last_of_a_repeated_field() {
    assert_eq!(ValueEnvelope::decode(&[0x08, 0x01, 0x08, 0x02]), Ok(envelope(2, b"")));
    assert_eq!(
        ValueEnvelope::decode(&[0x12, 0x01, 0x31, 0x12, 0x02, 0x32, 0x33]),
        Ok(envelope(0, b"23"))
    );
}

#[test]
fn envelope_accepts_a_padded_integer() {
    assert_eq!(ValueEnvelope::decode(&[0x08, 0x81, 0x00]), Ok(envelope(1, b"")));
}

#[test]
fn envelope_steps_over_unknown_fields() {
    // tag 3 as integer, tag 4 as eight bytes, tag 5 as bytes, tag 6 as four bytes
    let wire = [
        0x18, 0x96, 0x01, 0x21, 1, 2, 3, 4, 5, 6, 7, 8, 0x2a, 0x02, 0xaa, 0xbb, 0x35, 1, 2, 3, 4,
        0x08, 0x2a,
    ];
    assert_eq!(ValueEnvelope::decode(&wire), Ok(envelope(42, b"")));
}

#[test]
fn envelope_steps_over_an_unknown_group() {
    // group with tag 3 that holds an integer field and a nested group with tag 4
    let wire = [0x1b, 0x08, 0x01, 0x23, 0x24, 0x1c, 0x08, 0x05];
    assert_eq!(ValueEnvelope::decode(&wire), Ok(envelope(5, b"")));
}

#[test]
fn envelope_rejects_a_group_that_is_not_closed() {
    assert_eq!(ValueEnvelope::decode(&[0x1b, 0x08, 0x01]), Err(Malformed));
}

#[test]
fn envelope_rejects_a_group_closed_with_another_tag() {
    assert_eq!(ValueEnvelope::decode(&[0x1b, 0x24]), Err(Malformed));
}

#[test]
fn envelope_rejects_a_closing_marker_without_a_group() {
    assert_eq!(ValueEnvelope::decode(&[0x1c]), Err(Malformed));
}

#[test]
fn envelope_rejects_groups_nested_too_deep() {
    let mut deep = Vec::new();
    for _ in 0..100 {
        deep.push(0x1b);
    }
    for _ in 0..100 {
        deep.push(0x1c);
    }
    assert_eq!(ValueEnvelope::decode(&deep), Ok(envelope(0, b"")));
    let mut deeper = vec![0x1b];
    deeper.extend_from_slice(&deep);
    deeper.push(0x1c);
    assert_eq!(ValueEnvelope::decode(&deeper), Err(Malformed));
}

#[test]
fn envelope_rejects_a_truncated_integer() {
    assert_eq!(ValueEnvelope::decode(&[0x08]), Err(Malformed));
    assert_eq!(ValueEnvelope::decode(&[0x08, 0x80]), Err(Malformed));
}

#[test]
fn envelope_rejects_truncated_bytes() {
    assert_eq!(ValueEnvelope::decode(&[0x12, 0x05, 0x31]), Err(Malformed));
    assert_eq!(ValueEnvelope::decode(&[0x12]), Err(Malformed));
}

#[test]
fn envelope_rejects_truncated_fixed_width_fields() {
    assert_eq!(ValueEnvelope::decode(&[0x21, 1, 2, 3, 4, 5, 6, 7]), Err(Malformed));
    assert_eq!(ValueEnvelope::decode(&[0x35, 1, 2, 3]), Err(Malformed));
}

#[test]
fn envelope_rejects_an_integer_that_overflows() {
    let wire = [0x08, 0xff, 0xff, 0xff, 0xff, 0xff, 0xff, 0xff, 0xff, 0xff, 0x02];
    assert_eq!(ValueEnvelope::decode(&wire), Err(Malformed));
}

#[test]
fn envelope_rejects_an_integer_of_eleven_bytes() {
    let wire = [0x08, 0x80, 0x80, 0x80, 0x80, 0x80, 0x80, 0x80, 0x80, 0x80, 0x80, 0x00];
    assert_eq!(ValueEnvelope::decode(&wire), Err(Malformed));
}

#[test]
fn envelope_rejects_a_known_field_of_the_wrong_kind() {
    assert_eq!(ValueEnvelope::decode(&[0x0a, 0x01, 0x31]), Err(Malformed));
    assert_eq!(ValueEnvelope::decode(&[0x10, 0x01]), Err(Malformed));
    assert_eq!(ValueEnvelope::decode(&[0x0d, 1, 2, 3, 4]), Err(Malformed));
}

#[test]
fn envelope_rejects_tag_zero() {
    assert_eq!(ValueEnvelope::decode(&[0x00, 0x01]), Err(Malformed));
}

#[test]
fn envelope_rejects_a_wire_type_that_does_not_exist() {
    assert_eq!(ValueEnvelope::decode(&[0x1e, 0x01]), Err(Malformed));
    assert_eq!(ValueEnvelope::decode(&[0x1f, 0x01]), Err(Malformed));
}

#[test]
fn envelope_rejects_a_key_beyond_32_bits() {
    assert_eq!(
        ValueEnvelope::decode(&[0x88, 0x80, 0x80, 0x80, 0x10, 0x01]),
        Err(Malformed)
    );
}
