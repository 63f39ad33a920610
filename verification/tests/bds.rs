use jet1090::bds::bds21::AircraftAndAirlineRegistrationMarkings;
use jet1090::bds::{decode_bds, decode_payload, infer_bds, DecodedBds, DecodingError, RawRegister};

fn hex(s: &str) -> Vec<u8> {
    (0..s.len())
        .step_by(2)
        .map(|i| u8::from_str_radix(&s[i..i + 2], 16).unwrap())
        .collect()
}

/// The Comm-B data field (bytes 4 to 10) of a DF20/DF21 frame.
fn comm_b(frame: &str) -> Vec<u8> {
    hex(frame)[4..11].to_vec()
}

fn registration(frame: &str) -> Option<String> {
    match decode_bds(&comm_b(frame), 0x21).unwrap() {
        DecodedBds::Bds21(AircraftAndAirlineRegistrationMarkings { aircraft_registration, .. }) => {
            aircraft_registration
        }
        _ => unreachable!(),
    }
}

#[test]
fn test_valid_bds21() {
    assert_eq!(registration("a00002bf940f19680c0000000000"), Some("JA824A".to_string()));
    assert_eq!(registration("a00002988230c3b470a000000000"), Some("AFFGZNE".to_string()));
    assert_eq!(registration("a0000793ac45ab164c0000000000"), Some("VHVKI".to_string()));
}

/// Packs a BDS 2,1 register from its status bits and 6-bit codes.
fn pack(ac_status: bool, ac: [u8; 7], al_status: bool, al: [u8; 2]) -> Vec<u8> {
    let mut bits: Vec<bool> = vec![ac_status];
    for c in ac {
        for k in (0..6).rev() {
            bits.push(c >> k & 1 == 1);
        }
    }
    bits.push(al_status);
    for c in al {
        for k in (0..6).rev() {
            bits.push(c >> k & 1 == 1);
        }
    }
    bits.chunks(8)
        .map(|b| b.iter().fold(0u8, |acc, &x| acc << 1 | x as u8))
        .collect()
}

fn letters(s: &str) -> Vec<u8> {
    s.bytes()
        .map(|b| match b {
            b'A'..=b'Z' => b - b'A' + 1,
            b'0'..=b'9' => b,
            b' ' => 32,
            _ => panic!(),
        })
        .collect()
}

#[test]
fn national_dash_placeholders_are_stripped() {
    let mut codes = [0u8; 7];
    for (i, c) in letters("B").into_iter().chain([32]).chain(letters("2487")).enumerate() {
        codes[i] = c;
    }
    let space = pack(true, codes, false, [0, 0]);
    codes[1] = 0;
    let null = pack(true, codes, false, [0, 0]);
    codes[1] = 45;
    let dash = pack(true, codes, false, [0, 0]);
    for payload in [space, null, dash] {
        let m = AircraftAndAirlineRegistrationMarkings::from_bytes(&payload).unwrap();
        assert_eq!(m.aircraft_registration, Some("B2487".to_string()));
        assert!(m.ac_status);
        assert!(!m.al_status);
        assert_eq!(m.airline_registration, None);
    }
}

#[test]
fn reserved_codes_decode_as_hash() {
    let payload = pack(true, [2, 27, 1, 0, 0, 0, 0], false, [0, 0]);
    let m = AircraftAndAirlineRegistrationMarkings::from_bytes(&payload).unwrap();
    assert_eq!(m.aircraft_registration, Some("B#A".to_string()));
    let payload = pack(true, [2, 27, 33, 46, 58, 63, 1], false, [0, 0]);
    assert_eq!(
        decode_bds(&payload, 0x21),
        Err(DecodingError::DecodingFailed("Invalid aircraft registration B#####A".to_string()))
    );
}

#[test]
fn registrations_must_match_the_national_pattern() {
    // a single character
    let payload = pack(true, [1, 0, 0, 0, 0, 0, 0], false, [0, 0]);
    assert_eq!(
        decode_bds(&payload, 0x21),
        Err(DecodingError::DecodingFailed("Invalid aircraft registration A".to_string()))
    );
    // a separator at the end
    let payload = pack(true, [1, 2, 27, 0, 0, 0, 0], false, [0, 0]);
    assert_eq!(
        decode_bds(&payload, 0x21),
        Err(DecodingError::DecodingFailed("Invalid aircraft registration AB#".to_string()))
    );
    // nothing at all
    let payload = pack(true, [0; 7], false, [0, 0]);
    assert_eq!(
        decode_bds(&payload, 0x21),
        Err(DecodingError::DecodingFailed("Invalid aircraft registration ".to_string()))
    );
}

#[test]
fn clear_status_requires_null_codes() {
    let payload = pack(false, [32; 7], false, [0, 0]);
    assert_eq!(
        decode_bds(&payload, 0x21),
        Err(DecodingError::DecodingFailed(
            "Non-null value after invalid aircraft registration status: ".to_string()
        ))
    );
    let payload = pack(true, [1, 2, 0, 0, 0, 0, 0], false, [45, 0]);
    assert_eq!(
        decode_bds(&payload, 0x21),
        Err(DecodingError::DecodingFailed(
            "Non-null value after invalid airline registration status: ".to_string()
        ))
    );
}

#[test]
fn clear_status_with_characters_is_an_error() {
    let payload = pack(false, [1, 2, 0, 0, 0, 0, 0], false, [0, 0]);
    assert_eq!(
        decode_bds(&payload, 0x21),
        Err(DecodingError::DecodingFailed(
            "Non-null value after invalid aircraft registration status: AB".to_string()
        ))
    );
    let payload = pack(false, [0; 7], false, [0; 2]);
    let m = AircraftAndAirlineRegistrationMarkings::from_bytes(&payload).unwrap();
    assert_eq!(m.aircraft_registration, None);
    assert_eq!(m.airline_registration, None);

    let payload = pack(true, [1, 2, 0, 0, 0, 0, 0], false, [3, 0]);
    assert_eq!(
        decode_bds(&payload, 0x21),
        Err(DecodingError::DecodingFailed(
            "Non-null value after invalid airline registration status: C".to_string()
        ))
    );
    let payload = pack(true, [1, 2, 0, 0, 0, 0, 0], true, [4, 5]);
    assert_eq!(
        decode_bds(&payload, 0x21),
        Err(DecodingError::DecodingFailed(
            "Most transponders don't implement this field. (value = DE)".to_string()
        ))
    );
}

#[test]
fn short_registers_report_the_missing_read() {
    assert_eq!(
        decode_bds(&[0x80, 0, 0], 0x21),
        Err(DecodingError::DecodingFailed(
            "Not enough data, need 6 bits (or 1 bytes)".to_string()
        ))
    );
    assert_eq!(
        decode_payload(&[], 0x21),
        Err(DecodingError::DecodingFailed(
            "Not enough data, need 1 bits (or 1 bytes)".to_string()
        ))
    );
}

#[test]
fn strict_decoding_errors() {
    assert_eq!(
        decode_bds(&[], 0x21),
        Err(DecodingError::PayloadTooShort { expected: 1, received: 0 })
    );
    assert_eq!(decode_bds(&[0x00], 0xff), Err(DecodingError::InvalidBdsCode(0xff)));
    assert_eq!(
        decode_bds(&[0x20, 0, 0, 0, 0, 0, 0], 0x05),
        Err(DecodingError::TypeCodeMismatch {
            bds_code: 0x05,
            received_tc: 4,
            expected_tc: "9-18, 20-22".to_string()
        })
    );
    assert_eq!(
        decode_payload(&[], 0x06),
        Err(DecodingError::TypeCodeMismatch {
            bds_code: 0x06,
            received_tc: 0,
            expected_tc: "5-8".to_string()
        })
    );
}

#[test]
fn registers_hand_over_their_bytes() {
    let payload = [0x99, 1, 2, 3, 4, 5, 6];
    assert_eq!(
        decode_bds(&payload, 0x09),
        Ok(DecodedBds::Bds09(RawRegister { bytes: payload.to_vec(), bit_offset: 5 }))
    );
    let mut prefixed = vec![0x10];
    prefixed.extend_from_slice(&payload);
    assert_eq!(
        decode_bds(&payload, 0x10),
        Ok(DecodedBds::Bds10(RawRegister { bytes: prefixed, bit_offset: 0 }))
    );
    assert_eq!(
        decode_bds(&payload, 0x44),
        Ok(DecodedBds::Bds44(RawRegister { bytes: payload.to_vec(), bit_offset: 0 }))
    );
}

#[test]
fn decoding_error_messages() {
    assert_eq!(DecodingError::InvalidBdsCode(0x0a).to_string(), "Invalid BDS code 0x0a");
    assert_eq!(
        DecodingError::TypeCodeMismatch {
            bds_code: 0x61,
            received_tc: 3,
            expected_tc: "28".to_string()
        }
        .to_string(),
        "Type Code mismatch for BDS 0x61: received TC=3, expected 28"
    );
    assert_eq!(
        DecodingError::PayloadTooShort { expected: 1, received: 0 }.to_string(),
        "Payload too short: expected 1 bytes, got 0"
    );
    assert_eq!(
        DecodingError::DecodingFailed("x".to_string()).to_string(),
        "Decoding failed: x"
    );
}

#[test]
fn inference_keeps_the_codes_that_decode() {
    assert!(infer_bds(&[]).is_empty());
    let payload = [0x99, 0x44, 0x09, 0x94, 0x08, 0x38, 0x40];
    let results = infer_bds(&payload);
    let expected: Vec<DecodedBds> = [0x05u8, 0x06, 0x08, 0x09, 0x10, 0x17, 0x18, 0x19, 0x20, 0x21, 0x30, 0x40, 0x44, 0x45, 0x50, 0x60, 0x61, 0x62, 0x65]
        .iter()
        .filter_map(|c| decode_bds(&payload, *c).ok())
        .collect();
    assert_eq!(results, expected);
}
