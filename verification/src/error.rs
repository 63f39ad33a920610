//! Structured error reporting: error codes and JSON error responses.

use vstd::prelude::*;
use crate::bds::hex_digit;

verus! {

#[verifier::external_type_specification]
#[verifier::external_body]
pub struct ExJsonValue(serde_json::Value);

#[verifier::external_type_specification]
#[verifier::external_body]
pub struct ExJsonError(serde_json::Error);

/// Error codes for structured error reporting
#[derive(Debug, Clone, Copy, PartialEq, Eq, Structural)]
pub enum ErrorCode {
    InvalidHexPayload,
    InvalidPayloadLength,
    InvalidBdsCode,
    DecodingFailed,
    FileNotFound,
    InvalidFilePath,
    ParsingError,
    IoError,
    SerializationError,
    InvalidArgument,
}

/// The SCREAMING_SNAKE_CASE name of an error code.
pub open spec fn code_name(code: ErrorCode) -> Seq<char> {
    match code {
        ErrorCode::InvalidHexPayload => "INVALID_HEX_PAYLOAD"@,
        ErrorCode::InvalidPayloadLength => "INVALID_PAYLOAD_LENGTH"@,
        ErrorCode::InvalidBdsCode => "INVALID_BDS_CODE"@,
        ErrorCode::DecodingFailed => "DECODING_FAILED"@,
        ErrorCode::FileNotFound => "FILE_NOT_FOUND"@,
        ErrorCode::InvalidFilePath => "INVALID_FILE_PATH"@,
        ErrorCode::ParsingError => "PARSING_ERROR"@,
        ErrorCode::IoError => "IO_ERROR"@,
        ErrorCode::SerializationError => "SERIALIZATION_ERROR"@,
        ErrorCode::InvalidArgument => "INVALID_ARGUMENT"@,
    }
}

impl ErrorCode {
    /// The SCREAMING_SNAKE_CASE name of the code, as displayed and serialized.
    pub fn as_str(&self) -> (s: &'static str)
        ensures
            s@ == code_name(*self),
    {
        match self {
            ErrorCode::InvalidHexPayload => "INVALID_HEX_PAYLOAD",
            ErrorCode::InvalidPayloadLength => "INVALID_PAYLOAD_LENGTH",
            ErrorCode::InvalidBdsCode => "INVALID_BDS_CODE",
            ErrorCode::DecodingFailed => "DECODING_FAILED",
            ErrorCode::FileNotFound => "FILE_NOT_FOUND",
            ErrorCode::InvalidFilePath => "INVALID_FILE_PATH",
            ErrorCode::ParsingError => "PARSING_ERROR",
            ErrorCode::IoError => "IO_ERROR",
            ErrorCode::SerializationError => "SERIALIZATION_ERROR",
            ErrorCode::InvalidArgument => "INVALID_ARGUMENT",
        }
    }

    /// The displayed form of the code: its SCREAMING_SNAKE_CASE name.
    pub fn to_string(&self) -> (s: String)
        ensures
            s@ == code_name(*self),
    {
        String::from_str(self.as_str())
    }
}

/// How JSON writes character `c` inside a string.
pub open spec fn json_escape(c: char) -> Seq<char> {
    let u = c as int;
    if c == '"' {
        seq!['\\', '"']
    } else if c == '\\' {
        seq!['\\', '\\']
    } else if u == 0x08 {
        seq!['\\', 'b']
    } else if u == 0x09 {
        seq!['\\', 't']
    } else if u == 0x0A {
        seq!['\\', 'n']
    } else if u == 0x0C {
        seq!['\\', 'f']
    } else if u == 0x0D {
        seq!['\\', 'r']
    } else if u < 0x20 {
        seq!['\\', 'u', '0', '0', hex_digit(u / 16), hex_digit(u % 16)]
    } else {
        seq![c]
    }
}

/// The escaped characters of `s`.
pub open spec fn json_escape_all(s: Seq<char>) -> Seq<char>
    decreases s.len(),
{
    if s.len() == 0 {
        Seq::empty()
    } else {
        json_escape_all(s.drop_last()) + json_escape(s.last())
    }
}

/// `s` as a JSON string literal.
pub open spec fn json_quoted(s: Seq<char>) -> Seq<char> {
    seq!['"'] + json_escape_all(s) + seq!['"']
}

/// Serializes a string as a JSON string literal.
///
/// Trusted: calls `serde_json::to_string` on a `str`, which (serde_json
/// 1.0, `format_escaped_str`) writes the string between double quotes,
/// escaping `"` and `\` with a backslash, U+0008, U+0009, U+000A, U+000C
/// and U+000D as `\b \t \n \f \r`, the other characters below U+0020 as
/// `\u00` and two lower-case hex digits, and every other character as is.
/// It succeeds: a `str` serializes through `format_escaped_str` into a
/// `Vec<u8>`, whose writes do not fail.
#[verifier::external_body]
fn json_string(s: &str) -> (r: Result<String, serde_json::Error>)
    ensures
        r is Ok,
        r matches Ok(t) ==> t@ == json_quoted(s@),
{
    serde_json::to_string(s)
}

/// The compact JSON text that serde_json writes for a value.
pub uninterp spec fn value_json(v: serde_json::Value) -> Seq<char>;

/// Serializes a JSON value.
///
/// Trusted: calls `serde_json::to_string` on a `serde_json::Value`, which
/// succeeds: serde_json documents serialization as failing only when a
/// `Serialize` impl fails or a map has non-string keys, and `Value`'s impl
/// never fails and its maps are keyed by strings. The text, the value's
/// compact JSON, is a function of the value alone and is named
/// [`value_json`].
#[verifier::external_body]
fn json_value(v: &serde_json::Value) -> (r: Result<String, serde_json::Error>)
    ensures
        r is Ok,
        r matches Ok(t) ==> t@ == value_json(*v),
{
    serde_json::to_string(v)
}

/// Structured error response for JSON output
#[derive(Debug)]
pub struct ErrorResponse {
    pub error: String,
    pub code: ErrorCode,
    pub context: Option<serde_json::Value>,
}

/// The JSON object of an error response up to where its context would
/// follow: `{"error":<message>,"code":"<CODE>"`.
pub open spec fn json_head(error: Seq<char>, code: ErrorCode) -> Seq<char> {
    "{\"error\":"@ + json_quoted(error) + ",\"code\":\""@ + code_name(code) + "\""@
}

impl ErrorResponse {
    /// A response without context.
    pub fn new(code: ErrorCode, message: &str) -> (r: Self)
        ensures
            r.error@ == message@,
            r.code == code,
            r.context is None,
    {
        ErrorResponse { error: String::from_str(message), code, context: None }
    }

    /// A response with a JSON context.
    pub fn with_context(code: ErrorCode, message: &str, context: serde_json::Value) -> (r: Self)
        ensures
            r.error@ == message@,
            r.code == code,
            r.context == Some(context),
    {
        ErrorResponse { error: String::from_str(message), code, context: Some(context) }
    }

    /// The response as a JSON object: `error`, then `code`, then
    /// `context` when there is one. Serialization always succeeds.
    pub fn to_json(&self) -> (r: Result<String, serde_json::Error>)
        ensures
            r is Ok,
            r matches Ok(t) ==> {
                &&& self.context is None ==> t@ == json_head(self.error@, self.code) + "}"@
                &&& self.context matches Some(v) ==> t@ == json_head(self.error@, self.code)
                    + ",\"context\":"@ + value_json(v) + "}"@
            },
    {
        let mut out = String::from_str("{\"error\":");
        let error = match json_string(self.error.as_str()) {
            Ok(s) => s,
            Err(e) => {
                return Err(e);
            },
        };
        out.append(error.as_str());
        out.append(",\"code\":\"");
        out.append(self.code.as_str());
        out.append("\"");
        let ghost head = out@;
        assert(head == json_head(self.error@, self.code));
        match &self.context {
            None => {},
            Some(v) => {
                let value = match json_value(v) {
                    Ok(s) => s,
                    Err(e) => {
                        return Err(e);
                    },
                };
                out.append(",\"context\":");
                proof {
                    reveal_strlit(",\"context\":");
                }
                out.append(value.as_str());
            },
        }
        let ghost before_close = out@;
        out.append("}");
        proof {
            reveal_strlit("}");
            assert(out@ =~= before_close + "}"@);
        }
        Ok(out)
    }

    /// The displayed form of the response: `<CODE>: <message>`.
    pub fn to_string(&self) -> (s: String)
        ensures
            s@ == code_name(self.code) + ": "@ + self.error@,
    {
        let mut s = self.code.to_string();
        s.append(": ");
        s.append(self.error.as_str());
        s
    }
}

} // verus!
