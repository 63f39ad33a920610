//! ## Aircraft and Airline Registration Markings (BDS 2,1)
//!
//! Comm-B message providing aircraft and airline registration information
//! (ICAO Doc 9871 Table A-2-33).
//!
//! Message structure (56 bits, most significant bit first):
//! | AC_STAT | AC_REG (7 chars) | AL_STAT | AL_REG (2 chars) |
//! |---------|------------------|---------|------------------|
//! | 1       | 42 (6×7)         | 1       | 12 (6×2)         |
//!
//! Characters use the 6-bit alphabet of ICAO Annex 10, Vol IV, Table 3-7:
//! A–Z (1–26), SPACE (32) and 0–9 (48–57). The alphabet has no hyphen:
//! avionics put one of three placeholders in the national-dash slot,
//! SPACE (32), NULL (0) or the reserved code 45, and all three are
//! stripped from the decoded registration ("B 2487", "B\x002487" and
//! "B-2487" all decode to "B2487"). Other reserved codes decode as '#'
//! so that corrupt payloads stay visible downstream.
//!
//! If a status bit is 0, all character bits of its field must be 0
//! (every 6-bit code NULL). With the aircraft status bit set, the decoded
//! registration must match `[A-Z0-9]+[\s#]?[A-Z0-9]+`. The airline field
//! is not implemented by transponders: a set airline status bit is
//! rejected.

use vstd::prelude::*;
use crate::text::{dec, is_white_space, is_white_space_char, opt_chars, push_char};
use super::DecodingError;

verus! {

/// Bit `i` of `data`, counting from the most significant bit of the first byte.
pub open spec fn bit_at(data: Seq<u8>, i: int) -> u8 {
    (data[i / 8] >> ((7 - i % 8) as u8)) & 1u8
}

/// The `n` bits of `data` starting at bit `start`, read most significant first.
pub open spec fn bits_at(data: Seq<u8>, start: int, n: nat) -> nat
    decreases n,
{
    if n == 0 {
        0
    } else {
        bits_at(data, start, (n - 1) as nat) * 2 + bit_at(data, start + n - 1) as nat
    }
}

/// `2^n`
pub open spec fn p2(n: nat) -> nat
    decreases n,
{
    if n == 0 {
        1
    } else {
        2 * p2((n - 1) as nat)
    }
}

proof fn lemma_bits_at_bound(data: Seq<u8>, start: int, n: nat)
    ensures
        bits_at(data, start, n) < p2(n),
    decreases n,
{
    if n > 0 {
        lemma_bits_at_bound(data, start, (n - 1) as nat);
        let b = data[(start + n - 1) / 8];
        let k = (7 - (start + n - 1) % 8) as u8;
        assert((b >> k) & 1u8 <= 1u8) by (bit_vector);
    }
}

/// A cursor over the bits of a byte slice, most significant bit first.
pub struct BitReader<'a> {
    data: &'a [u8],
    byte: usize,
    off: u8,
}

impl<'a> BitReader<'a> {
    #[verifier::type_invariant]
    spec fn inv(self) -> bool {
        &&& self.off < 8
        &&& self.byte <= self.data@.len()
        &&& self.byte == self.data@.len() ==> self.off == 0
    }

    /// The bytes being read.
    pub closed spec fn bytes(self) -> Seq<u8> {
        self.data@
    }

    /// How many bits have been consumed.
    pub closed spec fn position(self) -> int {
        self.byte * 8 + self.off
    }

    /// A reader at the first bit of `data`.
    pub fn new(data: &'a [u8]) -> (r: Self)
        ensures
            r.bytes() == data@,
            r.position() == 0,
    {
        BitReader { data, byte: 0, off: 0 }
    }

    /// Reads `n` bits, most significant first. When fewer than `n` bits
    /// are left, returns `Err(n)`: the size of the read that could not be
    /// satisfied.
    pub fn read_bits(&mut self, n: usize) -> (res: Result<u8, usize>)
        requires
            1 <= n <= 8,
        ensures
            final(self).bytes() == old(self).bytes(),
            0 <= final(self).position() <= final(self).bytes().len() * 8,
            old(self).position() + n <= old(self).bytes().len() * 8 ==> {
                &&& res == Ok::<u8, usize>(bits_at(old(self).bytes(), old(self).position(), n as nat) as u8)
                &&& final(self).position() == old(self).position() + n
            },
            old(self).position() + n > old(self).bytes().len() * 8 ==> {
                &&& res == Err::<u8, usize>(n)
                &&& final(self).position() == old(self).position()
            },
    {
        proof {
            use_type_invariant(&*self);
        }
        let rem = self.data.len() - self.byte;
        let available = rem >= 2 || (rem == 1 && (self.off as usize) + n <= 8);
        if !available {
            return Err(n);
        }
        let ghost start = self.position();
        let ghost data = self.data@;
        let mut v: u16 = 0;
        let mut k: usize = 0;
        while k < n
            invariant
                1 <= n <= 8,
                0 <= k <= n,
                self.data@ == data,
                self.off < 8,
                self.byte <= self.data@.len(),
                self.byte == self.data@.len() ==> self.off == 0,
                self.position() == start + k,
                start + n <= data.len() * 8,
                v as nat == bits_at(data, start, k as nat),
            decreases n - k,
        {
            proof {
                lemma_bits_at_bound(data, start, k as nat);
                reveal_with_fuel(p2, 9);
                assert(p2(k as nat) <= 128) by {
                    lemma_p2_mono(k as nat, 7);
                }
            }
            let pos_bit: u8 = (self.data[self.byte] >> (7 - self.off)) & 1u8;
            proof {
                let i = start + k;
                assert(i / 8 == self.byte as int && i % 8 == self.off as int);
                assert(pos_bit == bit_at(data, i));
            }
            v = v * 2 + pos_bit as u16;
            if self.off == 7 {
                self.off = 0;
                self.byte = self.byte + 1;
            } else {
                self.off = self.off + 1;
            }
            k = k + 1;
        }
        proof {
            lemma_bits_at_bound(data, start, n as nat);
            reveal_with_fuel(p2, 9);
            lemma_p2_mono(n as nat, 8);
        }
        Ok(v as u8)
    }
}

proof fn lemma_p2_mono(a: nat, b: nat)
    requires
        a <= b,
    ensures
        p2(a) <= p2(b),
    decreases b,
{
    if a < b {
        lemma_p2_mono(a, (b - 1) as nat);
    }
}

/// Whether a 6-bit code is a national-dash placeholder, stripped from the
/// decoded registration: SPACE (32), NULL (0) or the reserved code 45.
pub open spec fn dash_placeholder(c: u8) -> bool {
    c == 0 || c == 32 || c == 45
}

/// Returns true when this 6-bit code is a national-dash placeholder that
/// should be stripped from the decoded registration string.
fn is_dash_placeholder(c: u8) -> (r: bool)
    ensures
        r == dash_placeholder(c),
{
    c == 0 || c == 32 || c == 45
}

/// The character of a 6-bit code: A–Z for 1–26, 0–9 for 48–57, SPACE for
/// 0 and 32, '-' for 45 and '#' for every other reserved code.
pub open spec fn lookup_char(c: u8) -> char {
    if c == 0 || c == 32 {
        ' '
    } else if 1 <= c <= 26 {
        (64 + c) as char
    } else if c == 45 {
        '-'
    } else if 48 <= c <= 57 {
        c as char
    } else {
        '#'
    }
}

fn char_lookup(c: u8) -> (ch: char)
    requires
        c < 64,
    ensures
        ch == lookup_char(c),
{
    if c == 0 || c == 32 {
        ' '
    } else if 1 <= c && c <= 26 {
        (64u8 + c) as char
    } else if c == 45 {
        '-'
    } else if 48 <= c && c <= 57 {
        c as char
    } else {
        '#'
    }
}

/// The `k`-th 6-bit character code of a field starting at bit `start`.
pub open spec fn char_code(data: Seq<u8>, start: int, k: int) -> u8 {
    bits_at(data, start + 6 * k, 6) as u8
}

/// The `count` character codes of a field starting at bit `start`.
pub open spec fn char_codes(data: Seq<u8>, start: int, count: nat) -> Seq<u8> {
    Seq::new(count, |k: int| char_code(data, start, k))
}

/// The codes that are not dash placeholders, in order.
pub open spec fn kept_codes(codes: Seq<u8>) -> Seq<u8>
    decreases codes.len(),
{
    if codes.len() == 0 {
        Seq::empty()
    } else {
        let rest = kept_codes(codes.drop_last());
        if dash_placeholder(codes.last()) {
            rest
        } else {
            rest.push(codes.last())
        }
    }
}

/// Whether every code is NULL (all character bits 0).
pub open spec fn all_zero(codes: Seq<u8>) -> bool {
    forall|k: int| 0 <= k < codes.len() ==> #[trigger] codes[k] == 0
}

/// A registration character: an upper-case ASCII letter or a digit.
pub open spec fn reg_char(c: char) -> bool {
    ('A' <= c <= 'Z') || ('0' <= c <= '9')
}

/// A registration separator: whitespace or '#'.
pub open spec fn sep_char(c: char) -> bool {
    c == '#' || is_white_space(c)
}

/// Whether `s` matches `^[A-Z0-9]+[\s#]?[A-Z0-9]+$`: at least two
/// registration characters, with at most one separator between them.
pub open spec fn spec_registration_pattern(s: Seq<char>) -> bool {
    ||| (s.len() >= 2 && forall|i: int| 0 <= i < s.len() ==> reg_char(#[trigger] s[i]))
    ||| exists|p: int|
        0 < p < s.len() - 1 && sep_char(#[trigger] s[p]) && forall|i: int|
            0 <= i < s.len() && i != p ==> reg_char(#[trigger] s[i])
}

fn is_reg_char(c: char) -> (r: bool)
    ensures
        r == reg_char(c),
{
    ('A' <= c && c <= 'Z') || ('0' <= c && c <= '9')
}

/// Whether `s` is a valid registration: `^[A-Z0-9]+[\s#]?[A-Z0-9]+$`.
pub fn registration_pattern(s: &Vec<char>) -> (r: bool)
    ensures
        r == spec_registration_pattern(s@),
{
    let n = s.len();
    let mut sep: Option<usize> = None;
    let mut i: usize = 0;
    while i < n
        invariant
            n == s@.len(),
            0 <= i <= n,
            sep is None ==> forall|j: int| 0 <= j < i ==> reg_char(#[trigger] s@[j]),
            sep matches Some(p) ==> p < i && sep_char(s@[p as int]) && forall|j: int|
                0 <= j < i && j != p ==> reg_char(#[trigger] s@[j]),
        decreases n - i,
    {
        let c = s[i];
        if is_reg_char(c) {
        } else if sep.is_none() && (c == '#' || is_white_space_char(c)) {
            sep = Some(i);
        } else {
            proof {
                assert(!reg_char(s@[i as int]));
                assert(!(s.len() >= 2 && forall|k: int| 0 <= k < s@.len() ==> reg_char(#[trigger] s@[k])));
                if exists|p: int|
                    0 < p < s@.len() - 1 && sep_char(#[trigger] s@[p]) && forall|k: int|
                        0 <= k < s@.len() && k != p ==> reg_char(#[trigger] s@[k]) {
                    let p = choose|p: int|
                        0 < p < s@.len() - 1 && sep_char(#[trigger] s@[p]) && forall|k: int|
                            0 <= k < s@.len() && k != p ==> reg_char(#[trigger] s@[k]);
                    if p != i {
                        assert(reg_char(s@[i as int]));
                    }
                    match sep {
                        Some(q) => {
                            assert(!reg_char(s@[q as int]));
                            assert(reg_char(s@[q as int]));
                        },
                        None => {},
                    }
                }
            }
            return false;
        }
        i = i + 1;
    }
    match sep {
        None => n >= 2,
        Some(p) => {
            proof {
                if !(p >= 1 && p + 1 < n) {
                    assert(!reg_char(s@[p as int]));
                    if exists|q: int|
                        0 < q < s@.len() - 1 && sep_char(#[trigger] s@[q]) && forall|k: int|
                            0 <= k < s@.len() && k != q ==> reg_char(#[trigger] s@[k]) {
                        let q = choose|q: int|
                            0 < q < s@.len() - 1 && sep_char(#[trigger] s@[q]) && forall|k: int|
                                0 <= k < s@.len() && k != q ==> reg_char(#[trigger] s@[k]);
                        assert(q != p as int);
                        assert(reg_char(s@[p as int]));
                    }
                }
            }
            p >= 1 && p + 1 < n
        },
    }
}

/// The characters of a sequence of codes.
pub open spec fn encode_codes(codes: Seq<u8>) -> Seq<char> {
    codes.map_values(|c: u8| lookup_char(c))
}

/// deku's message for a read of `bits` bits past the end of the data.
pub open spec fn incomplete_text(bits: nat) -> Seq<char> {
    "Not enough data, need "@ + dec(bits) + " bits (or "@ + dec((bits + 7) / 8) + " bytes)"@
}

/// Formats deku's error for a read of `bits` bits past the end of the data.
///
/// Trusted: calls `Display` of `deku::DekuError::Incomplete(NeedSize::new(bits))`,
/// which deku 0.20 (std feature) writes as
/// "Not enough data, need {bits} bits (or {bytes} bytes)" with `bytes` the
/// bit count rounded up to whole bytes.
#[verifier::external_body]
fn incomplete_message(bits: usize) -> (s: String)
    ensures
        s@ == incomplete_text(bits as nat),
{
    deku::DekuError::Incomplete(deku::prelude::NeedSize::new(bits)).to_string()
}

/// The kept codes of a `count`-character field at bit `start`, or `None`
/// when the data ends before the field does.
pub open spec fn spec_read_field(data: Seq<u8>, start: int, count: nat) -> Option<Seq<u8>> {
    if start + 6 * count > data.len() * 8 {
        None
    } else {
        Some(kept_codes(char_codes(data, start, count)))
    }
}

/// Reads `count` 6-bit characters and keeps those that are not dash
/// placeholders. On a short read, returns the size of that read (6 bits).
fn read_kept_codes(reader: &mut BitReader, count: usize) -> (res: Result<(Vec<u8>, bool), usize>)
    requires
        count <= 7,
        0 <= old(reader).position() <= old(reader).bytes().len() * 8,
    ensures
        final(reader).bytes() == old(reader).bytes(),
        0 <= final(reader).position() <= final(reader).bytes().len() * 8,
        match spec_read_field(old(reader).bytes(), old(reader).position(), count as nat) {
            None => res == Err::<(Vec<u8>, bool), usize>(6),
            Some(kept) => res matches Ok((v, zero)) && v@ == kept && zero == all_zero(
                char_codes(old(reader).bytes(), old(reader).position(), count as nat),
            ) && final(reader).position() == old(reader).position() + 6 * count,
        },
        res matches Ok((v, _)) ==> forall|j: int| 0 <= j < v@.len() ==> v@[j] < 64,
{
    let ghost data = reader.bytes();
    let ghost start = reader.position();
    let mut kept: Vec<u8> = Vec::new();
    let mut zero = true;
    let mut i: usize = 0;
    while i < count
        invariant
            count <= 7,
            0 <= i <= count,
            reader.bytes() == data,
            data == old(reader).bytes(),
            start == old(reader).position(),
            0 <= start,
            reader.position() == start + 6 * i,
            0 <= reader.position() <= data.len() * 8,
            kept@ == kept_codes(char_codes(data, start, i as nat)),
            zero == all_zero(char_codes(data, start, i as nat)),
            forall|j: int| 0 <= j < kept@.len() ==> kept@[j] < 64,
        decreases count - i,
    {
        let c = match reader.read_bits(6) {
            Ok(c) => c,
            Err(n) => {
                return Err(n);
            },
        };
        proof {
            lemma_bits_at_bound(data, start + 6 * i, 6);
            reveal_with_fuel(p2, 7);
            assert(char_codes(data, start, (i + 1) as nat).drop_last() =~= char_codes(
                data,
                start,
                i as nat,
            ));
            assert(char_codes(data, start, (i + 1) as nat).last() == c);
        }
        if !is_dash_placeholder(c) {
            kept.push(c);
        }
        proof {
            let next = char_codes(data, start, (i + 1) as nat);
            if zero && c == 0 {
                assert forall|k: int| 0 <= k < next.len() implies #[trigger] next[k] == 0 by {
                    if k < i {
                        assert(next[k] == char_codes(data, start, i as nat)[k]);
                    }
                }
            }
            if !zero {
                let k = choose|k: int| 0 <= k < i && #[trigger] char_codes(data, start, i as nat)[k] != 0;
                assert(next[k] == char_codes(data, start, i as nat)[k]);
            }
            if c != 0 {
                assert(next[i as int] != 0);
            }
        }
        zero = zero && c == 0;
        i = i + 1;
    }
    Ok((kept, zero))
}

/// The characters of `codes`, as a string.
fn encode(codes: &Vec<u8>) -> (s: String)
    requires
        forall|j: int| 0 <= j < codes@.len() ==> codes@[j] < 64,
    ensures
        s@ == encode_codes(codes@),
{
    let mut s = String::new();
    let mut i: usize = 0;
    while i < codes.len()
        invariant
            0 <= i <= codes@.len(),
            forall|j: int| 0 <= j < codes@.len() ==> codes@[j] < 64,
            s@ == encode_codes(codes@.take(i as int)),
        decreases codes@.len() - i,
    {
        let ch = char_lookup(codes[i]);
        push_char(&mut s, ch);
        i = i + 1;
        proof {
            assert(encode_codes(codes@.take(i as int)) =~= encode_codes(
                codes@.take(i - 1 as int),
            ).push(ch));
        }
    }
    proof {
        assert(codes@.take(i as int) =~= codes@);
    }
    s
}

/// What reading the aircraft registration field at bit `start` gives:
/// the registration (or `None`) when it reads, else the error message.
pub open spec fn spec_aircraft_registration(data: Seq<u8>, start: int, status: bool) -> Result<
    Option<Seq<char>>,
    Seq<char>,
> {
    match spec_read_field(data, start, 7) {
        None => Err(incomplete_text(6)),
        Some(kept) => if status {
            if spec_registration_pattern(encode_codes(kept)) {
                Ok(Some(encode_codes(kept)))
            } else {
                Err("Invalid aircraft registration "@ + encode_codes(kept))
            }
        } else if all_zero(char_codes(data, start, 7)) {
            Ok(None)
        } else {
            Err("Non-null value after invalid aircraft registration status: "@ + encode_codes(kept))
        },
    }
}

/// What reading the airline registration field at bit `start` gives.
pub open spec fn spec_airline_registration(data: Seq<u8>, start: int, status: bool) -> Result<
    Option<Seq<char>>,
    Seq<char>,
> {
    match spec_read_field(data, start, 2) {
        None => Err(incomplete_text(6)),
        Some(kept) => if status {
            Err("Most transponders don't implement this field. (value = "@ + encode_codes(kept) + ")"@)
        } else if all_zero(char_codes(data, start, 2)) {
            Ok(None)
        } else {
            Err("Non-null value after invalid airline registration status: "@ + encode_codes(kept))
        },
    }
}

/// Error message text of a failed field read.
pub open spec fn failure_text(e: DecodingError) -> Option<Seq<char>> {
    match e {
        DecodingError::DecodingFailed(m) => Some(m@),
        _ => None,
    }
}

/// Whether an executable field-read result agrees with its specification.
pub open spec fn read_agrees(res: Result<Option<String>, DecodingError>, spec: Result<Option<Seq<char>>, Seq<char>>) -> bool {
    match (res, spec) {
        (Ok(r), Ok(s)) => opt_chars(r) == s,
        (Err(e), Err(t)) => failure_text(e) == Some(t),
        _ => false,
    }
}

/// Reads the 7-character aircraft registration field.
///
/// National-dash placeholders are stripped, so the decoded string is the
/// dash-less registration. With the status bit clear, any non-placeholder
/// character is an error.
pub fn aircraft_registration_read(reader: &mut BitReader, status: bool) -> (res: Result<
    Option<String>,
    DecodingError,
>)
    ensures
        final(reader).bytes() == old(reader).bytes(),
        0 <= final(reader).position() <= final(reader).bytes().len() * 8,
        read_agrees(res, spec_aircraft_registration(old(reader).bytes(), old(reader).position(), status)),
        spec_read_field(old(reader).bytes(), old(reader).position(), 7) is Some ==> final(reader).position()
            == old(reader).position() + 42,
{
    proof {
        use_type_invariant(&*reader);
    }
    match read_kept_codes(reader, 7) {
        Err(n) => Err(DecodingError::DecodingFailed(incomplete_message(n))),
        Ok((kept, zero)) => {
            let encoded = encode(&kept);
            if status {
                let chars = crate::text::str_chars(encoded.as_str());
                if registration_pattern(&chars) {
                    Ok(Some(encoded))
                } else {
                    let mut msg = String::from_str("Invalid aircraft registration ");
                    msg.append(encoded.as_str());
                    Err(DecodingError::DecodingFailed(msg))
                }
            } else if zero {
                Ok(None)
            } else {
                let mut msg = String::from_str("Non-null value after invalid aircraft registration status: ");
                msg.append(encoded.as_str());
                Err(DecodingError::DecodingFailed(msg))
            }
        },
    }
}

/// Reads the 2-character ICAO airline registration field.
///
/// Most transponders do not implement this field, so a set status bit is
/// rejected; with the status bit clear, any non-placeholder character is
/// an error.
pub fn airline_registration_read(reader: &mut BitReader, status: bool) -> (res: Result<
    Option<String>,
    DecodingError,
>)
    ensures
        final(reader).bytes() == old(reader).bytes(),
        0 <= final(reader).position() <= final(reader).bytes().len() * 8,
        read_agrees(res, spec_airline_registration(old(reader).bytes(), old(reader).position(), status)),
        spec_read_field(old(reader).bytes(), old(reader).position(), 2) is Some ==> final(reader).position()
            == old(reader).position() + 12,
{
    proof {
        use_type_invariant(&*reader);
    }
    match read_kept_codes(reader, 2) {
        Err(n) => Err(DecodingError::DecodingFailed(incomplete_message(n))),
        Ok((kept, zero)) => {
            let encoded = encode(&kept);
            if status {
                let mut msg = String::from_str("Most transponders don't implement this field. (value = ");
                msg.append(encoded.as_str());
                msg.append(")");
                Err(DecodingError::DecodingFailed(msg))
            } else if zero {
                Ok(None)
            } else {
                let mut msg = String::from_str("Non-null value after invalid airline registration status: ");
                msg.append(encoded.as_str());
                Err(DecodingError::DecodingFailed(msg))
            }
        },
    }
}

/// Aircraft and airline registration markings (BDS 2,1).
#[derive(Debug, PartialEq, Clone, Default)]
pub struct AircraftAndAirlineRegistrationMarkings {
    /// Aircraft Registration Status
    pub ac_status: bool,
    /// Aircraft Registration Number (up to 7 characters)
    pub aircraft_registration: Option<String>,
    /// Airline Registration Status
    pub al_status: bool,
    /// ICAO Airline Registration Marking (2 characters)
    pub airline_registration: Option<String>,
}

/// The fields of a BDS 2,1 register as plain values.
pub type Bds21Fields = (bool, Option<Seq<char>>, bool, Option<Seq<char>>);

/// Decoding the 56-bit BDS 2,1 register at the start of `data`: its
/// fields, or the message of the first read that fails.
pub open spec fn spec_bds21(data: Seq<u8>) -> Result<Bds21Fields, Seq<char>> {
    if data.len() * 8 < 1 {
        Err(incomplete_text(1))
    } else {
        let ac = bit_at(data, 0) == 1;
        match spec_aircraft_registration(data, 1, ac) {
            Err(e) => Err(e),
            Ok(reg) => if data.len() * 8 < 44 {
                Err(incomplete_text(1))
            } else {
                let al = bit_at(data, 43) == 1;
                match spec_airline_registration(data, 44, al) {
                    Err(e) => Err(e),
                    Ok(al_reg) => Ok((ac, reg, al, al_reg)),
                }
            },
        }
    }
}

impl AircraftAndAirlineRegistrationMarkings {
    /// The fields as plain values.
    pub open spec fn fields(self) -> Bds21Fields {
        (self.ac_status, opt_chars(self.aircraft_registration), self.al_status, opt_chars(self.airline_registration))
    }

    /// Decodes the register from the first 56 bits of `payload`; bytes
    /// after those are ignored.
    pub fn from_bytes(payload: &[u8]) -> (res: Result<Self, DecodingError>)
        ensures
            match (res, spec_bds21(payload@)) {
                (Ok(m), Ok(f)) => m.fields() == f,
                (Err(e), Err(t)) => failure_text(e) == Some(t),
                _ => false,
            },
    {
        let mut reader = BitReader::new(payload);
        proof {
            reveal_with_fuel(bits_at, 2);
        }
        let ac_status = match reader.read_bits(1) {
            Ok(b) => b == 1,
            Err(n) => {
                return Err(DecodingError::DecodingFailed(incomplete_message(n)));
            },
        };
        let aircraft_registration = match aircraft_registration_read(&mut reader, ac_status) {
            Ok(r) => r,
            Err(e) => {
                return Err(e);
            },
        };
        let al_status = match reader.read_bits(1) {
            Ok(b) => b == 1,
            Err(n) => {
                return Err(DecodingError::DecodingFailed(incomplete_message(n)));
            },
        };
        let airline_registration = match airline_registration_read(&mut reader, al_status) {
            Ok(r) => r,
            Err(e) => {
                return Err(e);
            },
        };
        Ok(AircraftAndAirlineRegistrationMarkings {
            ac_status,
            aircraft_registration,
            al_status,
            airline_registration,
        })
    }
}

/// The national-dash placeholders are interchangeable in a registration:
/// putting any of them in place of another leaves the kept codes, and so
/// the decoded registration, unchanged.
pub proof fn lemma_placeholders_interchangeable(codes: Seq<u8>, i: int, c: u8)
    requires
        0 <= i < codes.len(),
        dash_placeholder(codes[i]),
        dash_placeholder(c),
    ensures
        kept_codes(codes.update(i, c)) == kept_codes(codes),
    decreases codes.len(),
{
    if i < codes.len() - 1 {
        assert(codes.update(i, c).drop_last() =~= codes.drop_last().update(i, c));
        lemma_placeholders_interchangeable(codes.drop_last(), i, c);
    } else {
        assert(codes.update(i, c).drop_last() =~= codes.drop_last());
    }
}

/// The kept codes are the non-placeholder codes, no more of them than there were codes.
pub proof fn lemma_kept_codes(codes: Seq<u8>)
    ensures
        kept_codes(codes).len() <= codes.len(),
        forall|k: int| 0 <= k < kept_codes(codes).len() ==> !dash_placeholder(#[trigger] kept_codes(codes)[k]),
        forall|k: int| 0 <= k < kept_codes(codes).len() ==> codes.contains(#[trigger] kept_codes(codes)[k]),
    decreases codes.len(),
{
    if codes.len() > 0 {
        lemma_kept_codes(codes.drop_last());
        let prev = kept_codes(codes.drop_last());
        assert forall|k: int| 0 <= k < kept_codes(codes).len() implies codes.contains(#[trigger] kept_codes(codes)[k]) by {
            if k < prev.len() {
                let x = prev[k];
                assert(codes.drop_last().contains(x));
                let w = choose|w: int| 0 <= w < codes.drop_last().len() && codes.drop_last()[w] == x;
                assert(codes[w] == x);
            } else {
                assert(codes[codes.len() - 1] == codes.last());
            }
        }
    }
}

/// A decoded registration holds at most 7 characters, each a letter, a
/// digit or '#': never a space or a dash.
pub proof fn lemma_registration_charset(data: Seq<u8>, start: int)
    ensures
        spec_read_field(data, start, 7) matches Some(kept) ==> {
            &&& encode_codes(kept).len() <= 7
            &&& forall|k: int| 0 <= k < encode_codes(kept).len() ==> {
                let ch = #[trigger] encode_codes(kept)[k];
                ('A' <= ch <= 'Z') || ('0' <= ch <= '9') || ch == '#'
            }
        },
{
    let codes = char_codes(data, start, 7);
    lemma_kept_codes(codes);
    let kept = kept_codes(codes);
    assert forall|k: int| 0 <= k < encode_codes(kept).len() implies {
        let ch = #[trigger] encode_codes(kept)[k];
        ('A' <= ch <= 'Z') || ('0' <= ch <= '9') || ch == '#'
    } by {
        let c = kept[k];
        assert(codes.contains(c));
        let w = choose|w: int| 0 <= w < codes.len() && codes[w] == c;
        lemma_bits_at_bound(data, start + 6 * w, 6);
        reveal_with_fuel(p2, 7);
        assert(encode_codes(kept)[k] == lookup_char(c));
    }
}

/// With the status bit clear, a field reads as absent exactly when all its
/// character bits are 0; with the aircraft status bit set, a registration
/// is returned only when it matches `[A-Z0-9]+[\s#]?[A-Z0-9]+`.
pub proof fn lemma_status_rules(data: Seq<u8>, start: int)
    ensures
        spec_read_field(data, start, 7) is Some ==> (spec_aircraft_registration(data, start, false)
            == Ok::<Option<Seq<char>>, Seq<char>>(None) <==> all_zero(char_codes(data, start, 7))),
        spec_read_field(data, start, 2) is Some ==> (spec_airline_registration(data, start, false)
            == Ok::<Option<Seq<char>>, Seq<char>>(None) <==> all_zero(char_codes(data, start, 2))),
        spec_aircraft_registration(data, start, false) is Ok ==> spec_aircraft_registration(data, start, false)
            == Ok::<Option<Seq<char>>, Seq<char>>(None),
        spec_aircraft_registration(data, start, true) matches Ok(Some(reg)) ==> spec_registration_pattern(reg),
        spec_airline_registration(data, start, true) is Err,
{
}

/// Letters and digits decode to themselves: codes 1–26 are 'A'–'Z' and
/// codes 48–57 are '0'–'9'. A field made only of such codes keeps every
/// code and decodes to exactly those letters and digits, in order.
pub proof fn lemma_letters_and_digits(codes: Seq<u8>)
    requires
        forall|i: int| 0 <= i < codes.len() ==> (1 <= #[trigger] codes[i] <= 26 || 48 <= codes[i] <= 57),
    ensures
        forall|c: u8| 1 <= c <= 26 ==> (#[trigger] lookup_char(c)) as int == 'A' as int + (c - 1),
        forall|c: u8| 48 <= c <= 57 ==> (#[trigger] lookup_char(c)) as int == '0' as int + (c - 48),
        kept_codes(codes) == codes,
        encode_codes(kept_codes(codes)).len() == codes.len(),
        forall|i: int|
            0 <= i < codes.len() ==> (#[trigger] encode_codes(kept_codes(codes))[i]) as int == if codes[i]
                <= 26 {
                'A' as int + (codes[i] - 1)
            } else {
                '0' as int + (codes[i] - 48)
            },
        forall|i: int|
            0 <= i < codes.len() ==> reg_char(#[trigger] encode_codes(kept_codes(codes))[i]),
    decreases codes.len(),
{
    if codes.len() > 0 {
        lemma_letters_and_digits(codes.drop_last());
        assert(codes.drop_last().push(codes.last()) =~= codes);
    }
}

} // verus!
