//! Comm-B data selector (BDS) registers: error type, dispatch by BDS code
//! and inference over all supported codes.

pub mod bds21;

use vstd::prelude::*;
use crate::text::{dec, push_char, push_decimal};
use self::bds21::{AircraftAndAirlineRegistrationMarkings, Bds21Fields, spec_bds21};

verus! {

/// Error type for BDS decoding operations
#[derive(Debug, Clone, PartialEq)]
pub enum DecodingError {
    /// Invalid BDS code (0xFF, reserved, or unsupported)
    InvalidBdsCode(u8),
    /// Type Code validation failed for this BDS code
    TypeCodeMismatch {
        /// The BDS code being decoded
        bds_code: u8,
        /// The Type Code extracted from payload
        received_tc: u8,
        /// Expected Type Code ranges for this BDS
        expected_tc: String,
    },
    /// Payload too short for this BDS code
    PayloadTooShort {
        /// Expected minimum bytes
        expected: usize,
        /// Actual bytes received
        received: usize,
    },
    /// Field decoding error, with the decoder's message
    DecodingFailed(String),
}

/// A [`DecodingError`] as plain values.
pub enum DecodingErrorView {
    InvalidBdsCode(u8),
    TypeCodeMismatch { bds_code: u8, received_tc: u8, expected_tc: Seq<char> },
    PayloadTooShort { expected: nat, received: nat },
    DecodingFailed(Seq<char>),
}

impl View for DecodingError {
    type V = DecodingErrorView;

    open spec fn view(&self) -> DecodingErrorView {
        match self {
            DecodingError::InvalidBdsCode(c) => DecodingErrorView::InvalidBdsCode(*c),
            DecodingError::TypeCodeMismatch { bds_code, received_tc, expected_tc } =>
                DecodingErrorView::TypeCodeMismatch {
                bds_code: *bds_code,
                received_tc: *received_tc,
                expected_tc: expected_tc@,
            },
            DecodingError::PayloadTooShort { expected, received } =>
                DecodingErrorView::PayloadTooShort {
                expected: *expected as nat,
                received: *received as nat,
            },
            DecodingError::DecodingFailed(m) => DecodingErrorView::DecodingFailed(m@),
        }
    }
}

/// The lower-case hexadecimal digit for `d` (`d < 16`).
pub open spec fn hex_digit(d: int) -> char {
    if d < 10 {
        (48 + d) as char
    } else {
        (87 + d) as char
    }
}

/// `b` as two lower-case hexadecimal digits.
pub open spec fn hex2(b: u8) -> Seq<char> {
    seq![hex_digit((b / 16) as int), hex_digit((b % 16) as int)]
}

/// The human-readable message of a decoding error.
pub open spec fn error_text(e: DecodingErrorView) -> Seq<char> {
    match e {
        DecodingErrorView::InvalidBdsCode(code) => "Invalid BDS code 0x"@ + hex2(code),
        DecodingErrorView::TypeCodeMismatch { bds_code, received_tc, expected_tc } =>
            "Type Code mismatch for BDS 0x"@ + hex2(bds_code) + ": received TC="@ + dec(
            received_tc as nat,
        ) + ", expected "@ + expected_tc,
        DecodingErrorView::PayloadTooShort { expected, received } => "Payload too short: expected "@
            + dec(expected) + " bytes, got "@ + dec(received),
        DecodingErrorView::DecodingFailed(msg) => "Decoding failed: "@ + msg,
    }
}

fn push_hex2(s: &mut String, b: u8)
    ensures
        final(s)@ == old(s)@ + hex2(b),
{
    let hi: u8 = b / 16;
    let lo: u8 = b % 16;
    let c1 = if hi < 10 { (48u8 + hi) as char } else { (87u8 + hi) as char };
    let c2 = if lo < 10 { (48u8 + lo) as char } else { (87u8 + lo) as char };
    push_char(s, c1);
    push_char(s, c2);
    proof {
        assert(final(s)@ =~= old(s)@ + hex2(b));
    }
}

impl DecodingError {
    /// The human-readable message of this error.
    pub fn to_string(&self) -> (s: String)
        ensures
            s@ == error_text(self@),
    {
        match self {
            DecodingError::InvalidBdsCode(code) => {
                let mut s = String::from_str("Invalid BDS code 0x");
                push_hex2(&mut s, *code);
                s
            },
            DecodingError::TypeCodeMismatch { bds_code, received_tc, expected_tc } => {
                let mut s = String::from_str("Type Code mismatch for BDS 0x");
                push_hex2(&mut s, *bds_code);
                s.append(": received TC=");
                push_decimal(&mut s, *received_tc as u64);
                s.append(", expected ");
                s.append(expected_tc.as_str());
                s
            },
            DecodingError::PayloadTooShort { expected, received } => {
                let mut s = String::from_str("Payload too short: expected ");
                push_decimal(&mut s, *expected as u64);
                s.append(" bytes, got ");
                push_decimal(&mut s, *received as u64);
                s
            },
            DecodingError::DecodingFailed(msg) => {
                let mut s = String::from_str("Decoding failed: ");
                s.append(msg.as_str());
                s
            },
        }
    }
}

/// A register accepted for its BDS code whose fields this library does
/// not lay out: the bytes handed to the register's field decoder and the
/// bit at which that decoder starts.
#[derive(Debug, Clone, PartialEq)]
pub struct RawRegister {
    pub bytes: Vec<u8>,
    pub bit_offset: usize,
}

/// Decoded BDS payload content
#[derive(Debug, Clone, PartialEq)]
pub enum DecodedBds {
    /// BDS 0,5: Airborne Position
    Bds05(RawRegister),
    /// BDS 0,6: Surface Position
    Bds06(RawRegister),
    /// BDS 0,8: Aircraft Identification and Category
    Bds08(RawRegister),
    /// BDS 0,9: Airborne Velocity
    Bds09(RawRegister),
    /// BDS 1,0: Data Link Capability
    Bds10(RawRegister),
    /// BDS 1,7: Common Usage GICB Capability Report
    Bds17(RawRegister),
    /// BDS 1,8: GICB Capability Report Part 1
    Bds18(RawRegister),
    /// BDS 1,9: GICB Capability Report Part 2
    Bds19(RawRegister),
    /// BDS 2,0: Aircraft Identification
    Bds20(RawRegister),
    /// BDS 2,1: Aircraft and Airline Registration Markings
    Bds21(AircraftAndAirlineRegistrationMarkings),
    /// BDS 3,0: ACAS Resolution Advisory
    Bds30(RawRegister),
    /// BDS 4,0: Selected Vertical Intention
    Bds40(RawRegister),
    /// BDS 4,4: Meteorological Routine Air Report
    Bds44(RawRegister),
    /// BDS 4,5: Meteorological Hazard Report
    Bds45(RawRegister),
    /// BDS 5,0: Track and Turn Report
    Bds50(RawRegister),
    /// BDS 6,0: Heading and Speed Report
    Bds60(RawRegister),
    /// BDS 6,1: Aircraft Status (Emergency/Priority)
    Bds61(RawRegister),
    /// BDS 6,2: Target State and Status Information
    Bds62(RawRegister),
    /// BDS 6,5: Aircraft Operational Status
    Bds65(RawRegister),
}

/// A [`DecodedBds`] as plain values.
pub enum DecodedView {
    /// A register of code `bds_code` handed to its field decoder as
    /// `bytes`, starting at bit `bit_offset`
    Register { bds_code: u8, bytes: Seq<u8>, bit_offset: nat },
    /// A decoded BDS 2,1 register
    Registration(Bds21Fields),
}

pub open spec fn raw_view(code: u8, r: RawRegister) -> DecodedView {
    DecodedView::Register { bds_code: code, bytes: r.bytes@, bit_offset: r.bit_offset as nat }
}

impl View for DecodedBds {
    type V = DecodedView;

    open spec fn view(&self) -> DecodedView {
        match self {
            DecodedBds::Bds05(r) => raw_view(0x05, *r),
            DecodedBds::Bds06(r) => raw_view(0x06, *r),
            DecodedBds::Bds08(r) => raw_view(0x08, *r),
            DecodedBds::Bds09(r) => raw_view(0x09, *r),
            DecodedBds::Bds10(r) => raw_view(0x10, *r),
            DecodedBds::Bds17(r) => raw_view(0x17, *r),
            DecodedBds::Bds18(r) => raw_view(0x18, *r),
            DecodedBds::Bds19(r) => raw_view(0x19, *r),
            DecodedBds::Bds20(r) => raw_view(0x20, *r),
            DecodedBds::Bds21(m) => DecodedView::Registration(m.fields()),
            DecodedBds::Bds30(r) => raw_view(0x30, *r),
            DecodedBds::Bds40(r) => raw_view(0x40, *r),
            DecodedBds::Bds44(r) => raw_view(0x44, *r),
            DecodedBds::Bds45(r) => raw_view(0x45, *r),
            DecodedBds::Bds50(r) => raw_view(0x50, *r),
            DecodedBds::Bds60(r) => raw_view(0x60, *r),
            DecodedBds::Bds61(r) => raw_view(0x61, *r),
            DecodedBds::Bds62(r) => raw_view(0x62, *r),
            DecodedBds::Bds65(r) => raw_view(0x65, *r),
        }
    }
}

/// The BDS code of a decoded register.
pub open spec fn view_code(d: DecodedView) -> u8 {
    match d {
        DecodedView::Register { bds_code, .. } => bds_code,
        DecodedView::Registration(_) => 0x21,
    }
}

/// The Type Code (TC): the first 5 bits of the payload, 0 for an empty payload.
pub open spec fn tc_of(payload: Seq<u8>) -> u8 {
    if payload.len() == 0 {
        0
    } else {
        payload[0] >> 3
    }
}

/// Extract the Type Code (TC) from the first 5 bits of payload
fn extract_tc(payload: &[u8]) -> (tc: u8)
    ensures
        tc == tc_of(payload@),
        tc < 32,
{
    if payload.is_empty() {
        return 0;
    }
    let b = payload[0];
    assert(b >> 3u8 < 32) by (bit_vector);
    b >> 3
}

/// Whether the payload of BDS `code` starts with a Type Code that must be checked.
pub open spec fn has_tc_rule(code: u8) -> bool {
    code == 0x05 || code == 0x06 || code == 0x08 || code == 0x09 || code == 0x61 || code == 0x62
        || code == 0x65
}

/// Whether Type Code `tc` is accepted for BDS `code`.
pub open spec fn tc_allowed(code: u8, tc: u8) -> bool {
    if code == 0x05 {
        (9 <= tc <= 18) || (20 <= tc <= 22)
    } else if code == 0x06 {
        5 <= tc <= 8
    } else if code == 0x08 {
        1 <= tc <= 4
    } else if code == 0x09 {
        tc == 19
    } else if code == 0x61 {
        tc == 28
    } else if code == 0x62 {
        tc == 29
    } else if code == 0x65 {
        tc == 31
    } else {
        true
    }
}

/// How the accepted Type Codes of BDS `code` are described in errors.
pub open spec fn tc_expected(code: u8) -> Seq<char> {
    if code == 0x05 {
        "9-18, 20-22"@
    } else if code == 0x06 {
        "5-8"@
    } else if code == 0x08 {
        "1-4"@
    } else if code == 0x09 {
        "19"@
    } else if code == 0x61 {
        "28"@
    } else if code == 0x62 {
        "29"@
    } else {
        "31"@
    }
}

/// Whether `code` is one of the supported BDS codes.
pub open spec fn is_supported_code(code: u8) -> bool {
    code == 0x05 || code == 0x06 || code == 0x08 || code == 0x09 || code == 0x10 || code == 0x17
        || code == 0x18 || code == 0x19 || code == 0x20 || code == 0x21 || code == 0x30 || code
        == 0x40 || code == 0x44 || code == 0x45 || code == 0x50 || code == 0x60 || code == 0x61
        || code == 0x62 || code == 0x65
}

/// The supported BDS codes, in increasing order.
pub open spec fn supported_codes() -> Seq<u8> {
    seq![
        0x05u8, 0x06, 0x08, 0x09, 0x10, 0x17, 0x18, 0x19, 0x20, 0x21, 0x30,
        0x40, 0x44, 0x45, 0x50, 0x60, 0x61, 0x62, 0x65,
    ]
}

/// The bytes and starting bit that the field decoder of `code` receives.
pub open spec fn decoder_input(code: u8, payload: Seq<u8>) -> (Seq<u8>, nat) {
    if code == 0x10 {
        (seq![0x10u8] + payload, 0)
    } else if code == 0x09 || code == 0x61 || code == 0x62 || code == 0x65 {
        (payload, 5)
    } else {
        (payload, 0)
    }
}

/// Decoding `payload` as the register of BDS `code`, without the
/// empty-payload check of [`decode_bds`].
pub open spec fn spec_decode_payload(payload: Seq<u8>, code: u8) -> Result<DecodedView, DecodingErrorView> {
    if !is_supported_code(code) {
        Err(DecodingErrorView::InvalidBdsCode(code))
    } else if has_tc_rule(code) && !tc_allowed(code, tc_of(payload)) {
        Err(DecodingErrorView::TypeCodeMismatch {
            bds_code: code,
            received_tc: tc_of(payload),
            expected_tc: tc_expected(code),
        })
    } else if code == 0x21 {
        match spec_bds21(payload) {
            Ok(f) => Ok(DecodedView::Registration(f)),
            Err(t) => Err(DecodingErrorView::DecodingFailed(t)),
        }
    } else {
        Ok(DecodedView::Register {
            bds_code: code,
            bytes: decoder_input(code, payload).0,
            bit_offset: decoder_input(code, payload).1,
        })
    }
}

/// Strict decoding of `payload` as the register of BDS `code`.
pub open spec fn spec_decode_bds(payload: Seq<u8>, code: u8) -> Result<DecodedView, DecodingErrorView> {
    if payload.len() == 0 {
        Err(DecodingErrorView::PayloadTooShort { expected: 1, received: 0 })
    } else {
        spec_decode_payload(payload, code)
    }
}

/// Whether an executable decoding result agrees with its specification.
pub open spec fn decode_agrees(
    res: Result<DecodedBds, DecodingError>,
    spec: Result<DecodedView, DecodingErrorView>,
) -> bool {
    match (res, spec) {
        (Ok(d), Ok(v)) => d@ == v,
        (Err(e), Err(v)) => e@ == v,
        _ => false,
    }
}

fn raw(payload: &[u8], bit_offset: usize) -> (r: RawRegister)
    ensures
        r.bytes@ == payload@,
        r.bit_offset == bit_offset,
{
    RawRegister { bytes: vstd::slice::slice_to_vec(payload), bit_offset }
}

fn mismatch(bds_code: u8, received_tc: u8, expected: &str) -> (e: DecodingError)
    ensures
        e@ == (DecodingErrorView::TypeCodeMismatch {
            bds_code,
            received_tc,
            expected_tc: expected@,
        }),
{
    DecodingError::TypeCodeMismatch { bds_code, received_tc, expected_tc: String::from_str(expected) }
}

/// Attempt to decode the BDS payload based on the BDS code.
///
/// Codes whose payload starts with a Type Code check it first
/// ([`TypeCodeMismatch`](DecodingError::TypeCodeMismatch)); unsupported
/// codes give [`InvalidBdsCode`](DecodingError::InvalidBdsCode). BDS 2,1
/// is decoded field by field; for every other supported code no field
/// decoder runs here: the result is the [`RawRegister`] that such a
/// decoder would receive, so no field decoding error can come back.
pub fn decode_payload(payload: &[u8], bds_code: u8) -> (res: Result<DecodedBds, DecodingError>)
    ensures
        decode_agrees(res, spec_decode_payload(payload@, bds_code)),
{
    match bds_code {
        0x05 => {
            let tc = extract_tc(payload);
            if !((9 <= tc && tc <= 18) || (20 <= tc && tc <= 22)) {
                return Err(mismatch(bds_code, tc, "9-18, 20-22"));
            }
            Ok(DecodedBds::Bds05(raw(payload, 0)))
        },
        0x06 => {
            let tc = extract_tc(payload);
            if !(5 <= tc && tc <= 8) {
                return Err(mismatch(bds_code, tc, "5-8"));
            }
            Ok(DecodedBds::Bds06(raw(payload, 0)))
        },
        0x08 => {
            let tc = extract_tc(payload);
            if !(1 <= tc && tc <= 4) {
                return Err(mismatch(bds_code, tc, "1-4"));
            }
            Ok(DecodedBds::Bds08(raw(payload, 0)))
        },
        0x09 => {
            let tc = extract_tc(payload);
            if tc != 19 {
                return Err(mismatch(bds_code, tc, "19"));
            }
            Ok(DecodedBds::Bds09(raw(payload, 5)))
        },
        0x10 => {
            let mut data: Vec<u8> = Vec::new();
            data.push(0x10u8);
            data.extend_from_slice(payload);
            proof {
                assert(data@ =~= seq![0x10u8] + payload@);
            }
            Ok(DecodedBds::Bds10(RawRegister { bytes: data, bit_offset: 0 }))
        },
        0x17 => Ok(DecodedBds::Bds17(raw(payload, 0))),
        0x18 => Ok(DecodedBds::Bds18(raw(payload, 0))),
        0x19 => Ok(DecodedBds::Bds19(raw(payload, 0))),
        0x20 => Ok(DecodedBds::Bds20(raw(payload, 0))),
        0x21 => match AircraftAndAirlineRegistrationMarkings::from_bytes(payload) {
            Ok(m) => Ok(DecodedBds::Bds21(m)),
            Err(e) => Err(e),
        },
        0x30 => Ok(DecodedBds::Bds30(raw(payload, 0))),
        0x40 => Ok(DecodedBds::Bds40(raw(payload, 0))),
        0x44 => Ok(DecodedBds::Bds44(raw(payload, 0))),
        0x45 => Ok(DecodedBds::Bds45(raw(payload, 0))),
        0x50 => Ok(DecodedBds::Bds50(raw(payload, 0))),
        0x60 => Ok(DecodedBds::Bds60(raw(payload, 0))),
        0x61 => {
            let tc = extract_tc(payload);
            if tc != 28 {
                return Err(mismatch(bds_code, tc, "28"));
            }
            Ok(DecodedBds::Bds61(raw(payload, 5)))
        },
        0x62 => {
            let tc = extract_tc(payload);
            if tc != 29 {
                return Err(mismatch(bds_code, tc, "29"));
            }
            Ok(DecodedBds::Bds62(raw(payload, 5)))
        },
        0x65 => {
            let tc = extract_tc(payload);
            if tc != 31 {
                return Err(mismatch(bds_code, tc, "31"));
            }
            Ok(DecodedBds::Bds65(raw(payload, 5)))
        },
        _ => Err(DecodingError::InvalidBdsCode(bds_code)),
    }
}

/// Decode a BDS payload with a required BDS code (strict decoding).
///
/// Validates that the payload is not empty, that the BDS code is
/// supported and that the payload's Type Code (TC) matches the expected
/// range for that BDS, then proceeds as [`decode_payload`]: BDS 2,1 is
/// decoded, every other register is handed back as a [`RawRegister`].
pub fn decode_bds(payload: &[u8], bds_code: u8) -> (res: Result<DecodedBds, DecodingError>)
    ensures
        decode_agrees(res, spec_decode_bds(payload@, bds_code)),
{
    if payload.is_empty() {
        return Err(DecodingError::PayloadTooShort { expected: 1, received: 0 });
    }
    decode_payload(payload, bds_code)
}

/// The registers that strict decoding yields for each of `codes`, in
/// order, skipping the codes that fail.
pub open spec fn spec_infer(payload: Seq<u8>, codes: Seq<u8>) -> Seq<DecodedView>
    decreases codes.len(),
{
    if codes.len() == 0 {
        Seq::empty()
    } else {
        let prev = spec_infer(payload, codes.drop_last());
        match spec_decode_bds(payload, codes.last()) {
            Ok(d) => prev.push(d),
            Err(_) => prev,
        }
    }
}

/// Infer possible BDS codes from a Comm-B payload (inference mode).
///
/// Attempts [`decode_bds`] with every supported BDS code and returns the
/// results that succeed, ordered by BDS code; empty when none does.
pub fn infer_bds(payload: &[u8]) -> (res: Vec<DecodedBds>)
    ensures
        res@.map_values(|d: DecodedBds| d@) == spec_infer(payload@, supported_codes()),
{
    let codes: [u8; 19] = [
        0x05u8, 0x06, 0x08, 0x09, 0x10, 0x17, 0x18, 0x19, 0x20, 0x21, 0x30,
        0x40, 0x44, 0x45, 0x50, 0x60, 0x61, 0x62, 0x65,
    ];
    assert(codes@ =~= supported_codes());
    let mut results: Vec<DecodedBds> = Vec::new();
    if payload.is_empty() {
        proof {
            lemma_infer_empty(payload@, supported_codes());
        }
        return results;
    }
    let mut i: usize = 0;
    while i < 19
        invariant
            0 <= i <= 19,
            codes@ == supported_codes(),
            results@.map_values(|d: DecodedBds| d@) == spec_infer(payload@, codes@.take(i as int)),
        decreases 19 - i,
    {
        let code = codes[i];
        let r = decode_bds(payload, code);
        proof {
            assert(codes@.take(i + 1).drop_last() =~= codes@.take(i as int));
            assert(codes@.take(i + 1).last() == code);
        }
        match r {
            Ok(decoded) => {
                results.push(decoded);
            },
            Err(_) => {},
        }
        i = i + 1;
        proof {
            assert(results@.map_values(|d: DecodedBds| d@) =~= spec_infer(
                payload@,
                codes@.take(i as int),
            ));
        }
    }
    assert(codes@.take(19) =~= codes@);
    results
}

proof fn lemma_infer_empty(payload: Seq<u8>, codes: Seq<u8>)
    requires
        payload.len() == 0,
    ensures
        spec_infer(payload, codes) == Seq::<DecodedView>::empty(),
    decreases codes.len(),
{
    if codes.len() > 0 {
        lemma_infer_empty(payload, codes.drop_last());
    }
}

/// Every register that strict decoding yields carries the BDS code it was
/// decoded as.
pub proof fn lemma_decoded_code(payload: Seq<u8>, code: u8)
    ensures
        spec_decode_bds(payload, code) matches Ok(d) ==> view_code(d) == code,
        spec_decode_payload(payload, code) matches Ok(d) ==> view_code(d) == code,
{
}

/// On a non-empty payload, strict decoding and payload decoding agree.
pub proof fn lemma_strict_on_nonempty(payload: Seq<u8>, code: u8)
    requires
        payload.len() > 0,
    ensures
        spec_decode_bds(payload, code) == spec_decode_payload(payload, code),
{
}

/// Inference over increasing codes: every result is the strict decoding
/// of its own code, which is one of the codes tried; results come in
/// increasing code order; and every code that decodes has its result
/// among them.
pub proof fn lemma_infer(payload: Seq<u8>, codes: Seq<u8>)
    requires
        forall|i: int, j: int| 0 <= i < j < codes.len() ==> codes[i] < codes[j],
    ensures
        forall|k: int|
            0 <= k < spec_infer(payload, codes).len() ==> {
                &&& codes.contains(view_code(#[trigger] spec_infer(payload, codes)[k]))
                &&& spec_decode_bds(payload, view_code(spec_infer(payload, codes)[k])) == Ok::<
                    DecodedView,
                    DecodingErrorView,
                >(spec_infer(payload, codes)[k])
            },
        forall|k: int, l: int|
            0 <= k < l < spec_infer(payload, codes).len() ==> view_code(
                #[trigger] spec_infer(payload, codes)[k],
            ) < view_code(#[trigger] spec_infer(payload, codes)[l]),
        forall|i: int|
            0 <= i < codes.len() && (#[trigger] spec_decode_bds(payload, codes[i])) is Ok
                ==> spec_infer(payload, codes).contains(spec_decode_bds(payload, codes[i])->Ok_0),
    decreases codes.len(),
{
    if codes.len() > 0 {
        let prefix = codes.drop_last();
        let last = codes.last();
        lemma_infer(payload, prefix);
        lemma_decoded_code(payload, last);
        let prev = spec_infer(payload, prefix);
        let r = spec_infer(payload, codes);
        assert forall|k: int| 0 <= k < prev.len() implies view_code(#[trigger] prev[k]) < last by {
            let c = view_code(prev[k]);
            let j = choose|j: int| 0 <= j < prefix.len() && prefix[j] == c;
            assert(codes[j] == c);
        }
        assert forall|k: int| 0 <= k < r.len() implies codes.contains(view_code(#[trigger] r[k])) by {
            if k < prev.len() {
                assert(r[k] == prev[k]);
                let c = view_code(prev[k]);
                let j = choose|j: int| 0 <= j < prefix.len() && prefix[j] == c;
                assert(codes[j] == c);
            } else {
                assert(codes[codes.len() - 1] == last);
            }
        }
        assert forall|i: int|
            0 <= i < codes.len() && (#[trigger] spec_decode_bds(payload, codes[i])) is Ok implies r.contains(
            spec_decode_bds(payload, codes[i])->Ok_0,
        ) by {
            if i < codes.len() - 1 {
                assert(prefix[i] == codes[i]);
                let d = spec_decode_bds(payload, codes[i])->Ok_0;
                let k = choose|k: int| 0 <= k < prev.len() && prev[k] == d;
                assert(r[k] == d);
            } else {
                assert(r[r.len() - 1] == spec_decode_bds(payload, codes[i])->Ok_0);
            }
        }
    }
}

/// Inference over the supported codes returns exactly the registers that
/// strict decoding yields for some supported code, in increasing code order.
pub proof fn lemma_infer_bds(payload: Seq<u8>)
    ensures
        forall|k: int|
            0 <= k < spec_infer(payload, supported_codes()).len() ==> {
                &&& is_supported_code(view_code(#[trigger] spec_infer(payload, supported_codes())[k]))
                &&& spec_decode_bds(payload, view_code(spec_infer(payload, supported_codes())[k]))
                    == Ok::<DecodedView, DecodingErrorView>(spec_infer(payload, supported_codes())[k])
            },
        forall|k: int, l: int|
            0 <= k < l < spec_infer(payload, supported_codes()).len() ==> view_code(
                #[trigger] spec_infer(payload, supported_codes())[k],
            ) < view_code(#[trigger] spec_infer(payload, supported_codes())[l]),
        forall|code: u8|
            is_supported_code(code) && (#[trigger] spec_decode_bds(payload, code)) is Ok
                ==> spec_infer(payload, supported_codes()).contains(spec_decode_bds(payload, code)->Ok_0),
{
    let codes = supported_codes();
    lemma_infer(payload, codes);
    assert forall|c: u8| #[trigger] codes.contains(c) implies is_supported_code(c) by {
        let j = choose|j: int| 0 <= j < codes.len() && codes[j] == c;
    }
    assert forall|code: u8|
        is_supported_code(code) && (#[trigger] spec_decode_bds(payload, code)) is Ok implies spec_infer(
        payload,
        codes,
    ).contains(spec_decode_bds(payload, code)->Ok_0) by {
        let i: int = if code == 0x05 { 0 } else if code == 0x06 { 1 } else if code == 0x08 { 2 }
            else if code == 0x09 { 3 } else if code == 0x10 { 4 } else if code == 0x17 { 5 }
            else if code == 0x18 { 6 } else if code == 0x19 { 7 } else if code == 0x20 { 8 }
            else if code == 0x21 { 9 } else if code == 0x30 { 10 } else if code == 0x40 { 11 }
            else if code == 0x44 { 12 } else if code == 0x45 { 13 } else if code == 0x50 { 14 }
            else if code == 0x60 { 15 } else if code == 0x61 { 16 } else if code == 0x62 { 17 }
            else { 18 };
        assert(codes[i] == code);
    }
}

/// The Type Code rules of strict decoding, with the Type Code read as the
/// first byte divided by 8: BDS 0,5 accepts 9–18 and 20–22, BDS 0,6
/// accepts 5–8, BDS 0,8 accepts 1–4, BDS 0,9 accepts 19, BDS 6,1 accepts
/// 28, BDS 6,2 accepts 29 and BDS 6,5 accepts 31. An accepted BDS 0,8
/// payload is handed over whole from bit 0; any other Type Code is a
/// mismatch that reports it.
pub proof fn lemma_type_code_rules(payload: Seq<u8>, code: u8)
    requires
        payload.len() > 0,
    ensures
        ({
            let tc = payload[0] / 8;
            &&& code == 0x05 ==> (spec_decode_bds(payload, code) is Ok <==> ((9 <= tc <= 18) || (20
                <= tc <= 22)))
            &&& code == 0x06 ==> (spec_decode_bds(payload, code) is Ok <==> 5 <= tc <= 8)
            &&& code == 0x08 ==> (spec_decode_bds(payload, code) is Ok <==> 1 <= tc <= 4)
            &&& code == 0x09 ==> (spec_decode_bds(payload, code) is Ok <==> tc == 19)
            &&& code == 0x61 ==> (spec_decode_bds(payload, code) is Ok <==> tc == 28)
            &&& code == 0x62 ==> (spec_decode_bds(payload, code) is Ok <==> tc == 29)
            &&& code == 0x65 ==> (spec_decode_bds(payload, code) is Ok <==> tc == 31)
            &&& (code == 0x08 && 1 <= tc <= 4) ==> spec_decode_bds(payload, code) == Ok::<
                DecodedView,
                DecodingErrorView,
            >(DecodedView::Register { bds_code: 0x08, bytes: payload, bit_offset: 0 })
            &&& (code == 0x05 || code == 0x06 || code == 0x08 || code == 0x09 || code == 0x61 || code
                == 0x62 || code == 0x65) ==> (spec_decode_bds(payload, code) matches Err(e) ==> e
                matches DecodingErrorView::TypeCodeMismatch { bds_code, received_tc, .. } && bds_code
                == code && received_tc == tc)
        }),
{
    let b = payload[0];
    assert(b >> 3u8 == b / 8) by (bit_vector);
}

} // verus!
