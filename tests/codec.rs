use aotp_tools::payload::{DecodeError, MigrationPayload, OtpParameters};

fn example_params() -> OtpParameters {
    OtpParameters {
        secret: vec![0x48, 0x65, 0x6c, 0x6c, 0x6f],
        name: String::new(),
        issuer: "Example".to_string(),
        algorithm: 1,
        digits: 1,
        otp_type: 0,
    }
}

fn example_payload() -> MigrationPayload {
    MigrationPayload {
        otp_parameters: vec![example_params()],
        version: 0,
        batch_size: 1,
        batch_index: 0,
        batch_id: 42,
    }
}

const EXAMPLE_BYTES: [u8; 26] = [
    0x0a, 0x14, 0x0a, 0x05, 0x48, 0x65, 0x6c, 0x6c, 0x6f, 0x1a, 0x07, b'E', b'x', b'a', b'm', b'p',
    b'l', b'e', 0x20, 0x01, 0x28, 0x01, 0x18, 0x01, 0x28, 0x2a,
];

#[test]
fn encodes_example_record_exactly() {
    assert_eq!(example_payload().encode_to_vec(), EXAMPLE_BYTES.to_vec());
}

#[test]
fn decodes_example_record_exactly() {
    assert_eq!(MigrationPayload::decode(&EXAMPLE_BYTES), Ok(example_payload()));
}

#[test]
fn round_trip_with_negative_and_large_values() {
    let m = MigrationPayload {
        otp_parameters: vec![
            OtpParameters {
                secret: vec![0, 255, 7],
                name: "alice@example.com".to_string(),
                issuer: "Ünïcødé ✓".to_string(),
                algorithm: -1,
                digits: i32::MAX,
                otp_type: i32::MIN,
            },
            OtpParameters {
                secret: vec![],
                name: String::new(),
                issuer: String::new(),
                algorithm: 0,
                digits: 0,
                otp_type: 0,
            },
        ],
        version: 1,
        batch_size: -5,
        batch_index: 300,
        batch_id: -123456789,
    };
    let bytes = m.encode_to_vec();
    assert_eq!(MigrationPayload::decode(&bytes), Ok(m));
}

#[test]
fn round_trip_empty_record() {
    let m = MigrationPayload {
        otp_parameters: vec![],
        version: 0,
        batch_size: 0,
        batch_index: 0,
        batch_id: 0,
    };
    let bytes = m.encode_to_vec();
    assert!(bytes.is_empty());
    assert_eq!(MigrationPayload::decode(&bytes), Ok(m));
}

#[test]
fn negative_int32_takes_ten_bytes() {
    let m = MigrationPayload {
        otp_parameters: vec![],
        version: -1,
        batch_size: 0,
        batch_index: 0,
        batch_id: 0,
    };
    let bytes = m.encode_to_vec();
    assert_eq!(
        bytes,
        vec![0x10, 0xff, 0xff, 0xff, 0xff, 0xff, 0xff, 0xff, 0xff, 0xff, 0x01]
    );
}

#[test]
fn unknown_fields_are_skipped() {
    // entry with an extra varint field 7 and an extra fixed32 field 9
    let mut entry = example_params().encode_to_vec();
    entry.extend_from_slice(&[0x38, 0x05, 0x4d, 1, 2, 3, 4]);
    let mut bytes = vec![0x0a, entry.len() as u8];
    bytes.extend_from_slice(&entry);
    // record-level unknown length-delimited field 9 and fixed64 field 10
    bytes.extend_from_slice(&[0x4a, 0x02, 0xaa, 0xbb, 0x51, 0, 0, 0, 0, 0, 0, 0, 0]);
    bytes.extend_from_slice(&[0x18, 0x01, 0x28, 0x2a]);
    assert_eq!(MigrationPayload::decode(&bytes), Ok(example_payload()));
}

#[test]
fn repeated_scalar_field_keeps_last_value() {
    assert_eq!(
        MigrationPayload::decode(&[0x28, 0x01, 0x28, 0x02]).map(|m| m.batch_id),
        Ok(2)
    );
}

#[test]
fn truncated_length_delimited_field_is_refused() {
    assert_eq!(MigrationPayload::decode(&EXAMPLE_BYTES[..10]), Err(DecodeError::Malformed));
}

#[test]
fn truncated_varint_is_refused() {
    assert_eq!(MigrationPayload::decode(&[0x28, 0x80]), Err(DecodeError::Malformed));
}

#[test]
fn overlong_varint_is_refused() {
    let mut bytes = vec![0x28];
    bytes.extend_from_slice(&[0xff; 9]);
    bytes.push(0x02);
    assert_eq!(MigrationPayload::decode(&bytes), Err(DecodeError::Malformed));
}

#[test]
fn wrong_wire_type_for_known_field_is_refused() {
    // field 1 (entries) as a varint
    assert_eq!(MigrationPayload::decode(&[0x08, 0x01]), Err(DecodeError::WrongWireType(1)));
}

#[test]
fn field_number_zero_is_refused() {
    assert_eq!(MigrationPayload::decode(&[0x00, 0x01]), Err(DecodeError::Malformed));
}

#[test]
fn group_wire_type_is_refused() {
    assert_eq!(MigrationPayload::decode(&[0x4b]), Err(DecodeError::Malformed));
}

#[test]
fn invalid_utf8_name_is_refused() {
    assert_eq!(
        OtpParameters::decode(&[0x12, 0x02, 0xc3, 0x28]),
        Err(DecodeError::InvalidUtf8(2))
    );
}

#[test]
fn utf8_name_is_decoded() {
    let p = OtpParameters::decode(&[0x12, 0x05, b'a', b'l', b'i', b'c', b'e']).unwrap();
    assert_eq!(p.name, "alice");
    let q = OtpParameters::decode(&[0x12, 0x02, 0xc3, 0xa9]).unwrap();
    assert_eq!(q.name, "é");
}

#[test]
fn wrong_wire_type_inside_entry_is_reported() {
    // entry whose algorithm field is length-delimited
    let bytes = [0x0a, 0x03, 0x22, 0x01, 0x00];
    assert_eq!(MigrationPayload::decode(&bytes), Err(DecodeError::WrongWireType(4)));
}

#[test]
fn entry_round_trip() {
    let p = example_params();
    assert_eq!(OtpParameters::decode(&p.encode_to_vec()), Ok(p));
}
