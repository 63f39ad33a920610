//! Beast frame parsing.
//!
//! Beast format:
//!  - `0x1a 0x32` + 6-byte MLAT timestamp + 1-byte signal + 7-byte Mode S short = 16 bytes
//!  - `0x1a 0x33` + 6-byte MLAT timestamp + 1-byte signal + 14-byte Mode S long = 23 bytes

use vstd::prelude::*;
use crate::bds::{DecodedBds, view_code};

verus! {

/// A Beast MLAT timestamp split into whole seconds since midnight and
/// the nanoseconds that follow them.
#[derive(Debug, Clone, Copy, PartialEq, Eq, Structural)]
pub struct BeastTimestamp {
    pub seconds: u64,
    pub nanos: u64,
}

/// The 6 timestamp bytes read as one big-endian 48-bit number.
pub open spec fn be48(b: Seq<u8>) -> int {
    b[0] * 0x100_0000_0000 + b[1] * 0x1_0000_0000 + b[2] * 0x100_0000 + b[3] * 0x1_0000
        + b[4] * 0x100 + b[5]
}

/// Upper 18 bits of the 48-bit field are the seconds, lower 30 bits the nanoseconds.
pub open spec fn spec_beast_timestamp(b: Seq<u8>) -> BeastTimestamp {
    BeastTimestamp {
        seconds: (be48(b) / 0x4000_0000) as u64,
        nanos: (be48(b) % 0x4000_0000) as u64,
    }
}

/// Extract the timestamp (seconds since midnight) from the 6-byte Beast MLAT field.
///
/// The 6 bytes are read as a big-endian number: the upper 18 bits are
/// seconds, the lower 30 bits nanoseconds.
pub fn decode_beast_timestamp(ts_bytes: &[u8]) -> (ts: BeastTimestamp)
    requires
        ts_bytes@.len() == 6,
    ensures
        ts == spec_beast_timestamp(ts_bytes@),
        ts.seconds < 0x4_0000,
        ts.nanos < 0x4000_0000,
        ts.seconds * 0x4000_0000 + ts.nanos == be48(ts_bytes@),
{
    let v: u64 = (ts_bytes[0] as u64) * 0x100_0000_0000 + (ts_bytes[1] as u64) * 0x1_0000_0000
        + (ts_bytes[2] as u64) * 0x100_0000 + (ts_bytes[3] as u64) * 0x1_0000
        + (ts_bytes[4] as u64) * 0x100 + (ts_bytes[5] as u64);
    BeastTimestamp { seconds: v / 0x4000_0000, nanos: v % 0x4000_0000 }
}

/// What `extract_beast_frame` returns for a raw Beast frame.
pub open spec fn spec_extract_beast_frame(b: Seq<u8>) -> Option<(BeastTimestamp, Seq<u8>)> {
    if b.len() < 16 || b[0] != 0x1a {
        None
    } else if b[1] == 0x32 {
        Some((spec_beast_timestamp(b.subrange(2, 8)), b.subrange(9, 16)))
    } else if b[1] == 0x33 && b.len() >= 23 {
        Some((spec_beast_timestamp(b.subrange(2, 8)), b.subrange(9, 23)))
    } else {
        None
    }
}

fn copy_range(bytes: &[u8], start: usize, end: usize) -> (out: Vec<u8>)
    requires
        start <= end <= bytes@.len(),
    ensures
        out@ == bytes@.subrange(start as int, end as int),
{
    let mut out: Vec<u8> = Vec::new();
    let mut i: usize = start;
    while i < end
        invariant
            start <= i <= end <= bytes@.len(),
            out@ == bytes@.subrange(start as int, i as int),
        decreases end - i,
    {
        out.push(bytes[i]);
        i = i + 1;
    }
    out
}

/// Extract the Mode S payload from a raw Beast frame (bytes already decoded from hex).
///
/// Returns `(timestamp, frame)` where `frame` is the Mode S message bytes
/// (7 bytes for a short frame, 14 for a long one), or `None` if the bytes
/// are not a valid Beast frame.
pub fn extract_beast_frame(bytes: &[u8]) -> (res: Option<(BeastTimestamp, Vec<u8>)>)
    ensures
        match (res, spec_extract_beast_frame(bytes@)) {
            (None, None) => true,
            (Some((ts, frame)), Some((sts, sframe))) => ts == sts && frame@ == sframe,
            _ => false,
        },
        res matches Some((_, frame)) ==> frame@.len() == 7 || frame@.len() == 14,
{
    if bytes.len() < 16 || bytes[0] != 0x1a {
        return None;
    }
    if bytes[1] == 0x32 {
        let timestamp = decode_beast_timestamp(&bytes[2..8]);
        let frame = copy_range(bytes, 9, 16);
        Some((timestamp, frame))
    } else if bytes[1] == 0x33 && bytes.len() >= 23 {
        let timestamp = decode_beast_timestamp(&bytes[2..8]);
        let frame = copy_range(bytes, 9, 23);
        Some((timestamp, frame))
    } else {
        None
    }
}

/// Map a `DecodedBds` variant to its numeric BDS code.
pub fn bds_code_from_decoded(decoded: &DecodedBds) -> (code: u8)
    ensures
        code == view_code(decoded@),
{
    match decoded {
        DecodedBds::Bds05(_) => 0x05,
        DecodedBds::Bds06(_) => 0x06,
        DecodedBds::Bds08(_) => 0x08,
        DecodedBds::Bds09(_) => 0x09,
        DecodedBds::Bds10(_) => 0x10,
        DecodedBds::Bds17(_) => 0x17,
        DecodedBds::Bds18(_) => 0x18,
        DecodedBds::Bds19(_) => 0x19,
        DecodedBds::Bds20(_) => 0x20,
        DecodedBds::Bds21(_) => 0x21,
        DecodedBds::Bds30(_) => 0x30,
        DecodedBds::Bds40(_) => 0x40,
        DecodedBds::Bds44(_) => 0x44,
        DecodedBds::Bds45(_) => 0x45,
        DecodedBds::Bds50(_) => 0x50,
        DecodedBds::Bds60(_) => 0x60,
        DecodedBds::Bds61(_) => 0x61,
        DecodedBds::Bds62(_) => 0x62,
        DecodedBds::Bds65(_) => 0x65,
    }
}

} // verus!
