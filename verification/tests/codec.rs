use string_contract::codec::{decode, encode, try_encode, StringData};

fn payload(id: u8, firstname: &str, lastname: &str) -> StringData {
    StringData { id, firstname: firstname.to_string(), lastname: lastname.to_string() }
}

#[test]
fn round_trip_basic() {
    let p = payload(5, "Ali", "Kim");
    let bytes = encode(&p);
    let d = decode(&bytes).unwrap();
    assert_eq!(d, p);
}

#[test]
fn round_trip_empty_strings() {
    let p = payload(0, "", "");
    let bytes = encode(&p);
    assert_eq!(bytes, vec![0, 0, 0, 0, 0, 0, 0, 0, 0]);
    let d = decode(&bytes).unwrap();
    assert_eq!(d, p);
}

#[test]
fn round_trip_unicode() {
    let p = payload(255, "émile", "Бородин");
    let bytes = encode(&p);
    let d = decode(&bytes).unwrap();
    assert_eq!(d, p);
}

#[test]
fn encode_uses_utf8_byte_lengths() {
    // "é" is two bytes of UTF-8, so the prefix must declare 2, not 1.
    let p = payload(1, "é", "");
    let bytes = encode(&p);
    assert_eq!(bytes, vec![1, 2, 0, 0, 0, 0xC3, 0xA9, 0, 0, 0, 0]);
}

#[test]
fn encode_exact_bytes() {
    let p = payload(5, "Ali", "Kim");
    let bytes = encode(&p);
    assert_eq!(
        bytes,
        vec![
            0x05, 0x03, 0, 0, 0, b'A', b'l', b'i', 0x03, 0, 0, 0, b'K', b'i', b'm',
        ]
    );
}

#[test]
fn decode_scenario_bytes() {
    let bytes = [
        0x05u8, 0x03, 0, 0, 0, b'A', b'l', b'i', 0x03, 0, 0, 0, b'K', b'i', b'm',
    ];
    let d = decode(&bytes).unwrap();
    assert_eq!(d.id, 5);
    assert_eq!(d.firstname, "Ali");
    assert_eq!(d.lastname, "Kim");
}

#[test]
fn truncation_rejected() {
    let p = payload(7, "Grace", "Hopper");
    let bytes = encode(&p);
    for cut in 0..bytes.len() {
        assert!(decode(&bytes[..cut]).is_err(), "prefix of length {cut} was accepted");
    }
}

#[test]
fn empty_buffer_rejected() {
    assert!(decode(&[]).is_err());
}

#[test]
fn short_length_prefix_rejected() {
    // One id byte and only three bytes of the four-byte length prefix.
    assert!(decode(&[1, 3, 0, 0]).is_err());
}

#[test]
fn declared_length_past_end_rejected() {
    // Claims a 255-byte firstname but the buffer ends.
    assert!(decode(&[0x01, 0xFF, 0, 0, 0]).is_err());
}

#[test]
fn missing_lastname_rejected() {
    // A complete firstname and nothing after it.
    assert!(decode(&[1, 3, 0, 0, 0, b'A', b'l', b'i']).is_err());
}

#[test]
fn invalid_utf8_rejected() {
    // 0xFF can begin no UTF-8 sequence.
    assert!(decode(&[1, 2, 0, 0, 0, 0xFF, 0xFE, 0, 0, 0, 0]).is_err());
}

#[test]
fn invalid_utf8_in_lastname_rejected() {
    // Overlong encoding of '/' (0xC0 0xAF) is not valid UTF-8.
    assert!(decode(&[1, 0, 0, 0, 0, 2, 0, 0, 0, 0xC0, 0xAF]).is_err());
}

#[test]
fn trailing_bytes_tolerated() {
    let p = payload(9, "Ada", "Lovelace");
    let mut bytes = encode(&p);
    bytes.extend_from_slice(&[0xDE, 0xAD, 0xBE, 0xEF]);
    let d = decode(&bytes).unwrap();
    assert_eq!(d, p);
}

#[test]
fn try_encode_matches_encode() {
    let p = payload(42, "Mary", "Shelley");
    let bytes = try_encode(&p).unwrap();
    assert_eq!(bytes, encode(&p));
}

#[test]
fn matches_borsh_layout() {
    // The wire format is borsh's layout for (u8, String, String).
    let p = payload(5, "Ali", "Kim");
    let reference = borsh::to_vec(&(5u8, "Ali".to_string(), "Kim".to_string())).unwrap();
    assert_eq!(encode(&p), reference);

    let unicode = borsh::to_vec(&(200u8, "æøå".to_string(), "".to_string())).unwrap();
    let d = decode(&unicode).unwrap();
    assert_eq!(d, payload(200, "æøå", ""));
}
