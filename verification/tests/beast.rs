use jet1090::bds::{decode_bds, infer_bds};
use jet1090::beast::{bds_code_from_decoded, decode_beast_timestamp, extract_beast_frame, BeastTimestamp};

#[test]
fn beast_timestamp_splits_seconds_and_nanoseconds() {
    // 0x0000_4000_0001: one second (bit 30) and one nanosecond
    let ts = decode_beast_timestamp(&[0x00, 0x00, 0x40, 0x00, 0x00, 0x01]);
    assert_eq!(ts, BeastTimestamp { seconds: 1, nanos: 1 });
    let ts = decode_beast_timestamp(&[0xff, 0xff, 0xff, 0xff, 0xff, 0xff]);
    assert_eq!(ts, BeastTimestamp { seconds: 0x3ffff, nanos: 0x3fff_ffff });
    let ts = decode_beast_timestamp(&[0x12, 0x34, 0x56, 0x78, 0x9a, 0xbc]);
    assert_eq!(ts.seconds, 0x1234_5678_9abc >> 30);
    assert_eq!(ts.nanos, 0x1234_5678_9abc & 0x3fff_ffff);
}

#[test]
fn beast_short_and_long_frames() {
    let mut short = vec![0x1a, 0x32, 0, 0, 0x40, 0, 0, 2, 0x99];
    short.extend_from_slice(&[1, 2, 3, 4, 5, 6, 7]);
    let (ts, frame) = extract_beast_frame(&short).unwrap();
    assert_eq!(ts, BeastTimestamp { seconds: 1, nanos: 2 });
    assert_eq!(frame, vec![1, 2, 3, 4, 5, 6, 7]);

    let mut long = vec![0x1a, 0x33, 0, 0, 0, 0, 0, 5, 0x99];
    long.extend((1..=14).collect::<Vec<u8>>());
    let (ts, frame) = extract_beast_frame(&long).unwrap();
    assert_eq!(ts, BeastTimestamp { seconds: 0, nanos: 5 });
    assert_eq!(frame, (1..=14).collect::<Vec<u8>>());
}

#[test]
fn beast_rejects_bad_frames() {
    assert_eq!(extract_beast_frame(&[0x1a, 0x32]), None);
    let mut bad_escape = vec![0x1b, 0x32];
    bad_escape.extend_from_slice(&[0; 14]);
    assert_eq!(extract_beast_frame(&bad_escape), None);
    // a long frame type with only 16 bytes
    let mut truncated_long = vec![0x1a, 0x33];
    truncated_long.extend_from_slice(&[0; 14]);
    assert_eq!(extract_beast_frame(&truncated_long), None);
    let mut other_type = vec![0x1a, 0x31];
    other_type.extend_from_slice(&[0; 21]);
    assert_eq!(extract_beast_frame(&other_type), None);
}

#[test]
fn decoded_registers_carry_their_code() {
    // TC 19 airborne velocity, also decodes as several Comm-B registers
    let payload = [0x99, 0x44, 0x09, 0x94, 0x08, 0x38, 0x40];
    for code in [0x09u8, 0x10, 0x17, 0x20, 0x60] {
        let decoded = decode_bds(&payload, code).unwrap();
        assert_eq!(bds_code_from_decoded(&decoded), code);
    }
    let codes: Vec<u8> = infer_bds(&payload).iter().map(bds_code_from_decoded).collect();
    let mut sorted = codes.clone();
    sorted.sort();
    assert_eq!(codes, sorted);
    assert!(codes.contains(&0x09));
    assert!(!codes.contains(&0x05));
}
