//! Payloads: how a request gives one, and how a received one is shown.

use vstd::prelude::*;
use vstd::utf8::*;

use crate::codec::{base64_decode, base64_encode, base64_form, base64_reading, utf8_text};
use crate::entries::opt_text;
use crate::text::chars_of;

verus! {

broadcast use vstd::utf8::decode_utf8_encode_utf8;

/// Why a tool refuses or fails.
#[derive(Debug)]
pub enum ToolError {
    /// The arguments are at fault.
    InvalidParams(String),
    /// Something else is.
    Internal(String),
}

/// The wording of a request that gives no payload or two.
pub open spec fn payload_choice_text() -> Seq<char> {
    "exactly one of `text` or `payload_base64` must be provided"@
}

/// Exactly one of the two forms is given.
pub open spec fn one_payload(text: Option<String>, payload_base64: Option<String>) -> bool {
    text is Some != payload_base64 is Some
}

/// A payload as a request gives it.
#[derive(Debug)]
pub enum Payload {
    Text(String),
    Bytes(Vec<u8>),
}

impl Payload {
    /// The bytes that are sent.
    pub open spec fn bytes(self) -> Seq<u8> {
        match self {
            Payload::Text(s) => encode_utf8(s@),
            Payload::Bytes(b) => b@,
        }
    }
}

/// The wording of a payload that is no base-64.
pub open spec fn bad_base64_text(e: Seq<char>) -> Seq<char> {
    "invalid base64: "@ + e
}

/// Why no payload can be taken from a request.
#[derive(Debug)]
pub enum PayloadError {
    /// Neither form is given, or both.
    Choice,
    /// The base-64 form does not decode; the text is the decoder's.
    Base64(String),
}

/// A base-64 form is given alone and does not decode.
pub open spec fn decode_fails(text: Option<String>, payload_base64: Option<String>) -> bool {
    &&& one_payload(text, payload_base64)
    &&& text is None
    &&& base64_reading(payload_base64->Some_0@) is Err
}

/// The decoder's wording, where a base-64 form does not decode.
pub open spec fn decode_error(payload_base64: Option<String>) -> Seq<char> {
    base64_reading(payload_base64->Some_0@)->Err_0
}

/// `p` is the one payload that a request gives.
pub open spec fn is_payload_of(p: Payload, text: Option<String>, payload_base64: Option<String>) -> bool {
    &&& one_payload(text, payload_base64)
    &&& !decode_fails(text, payload_base64)
    &&& match text {
        Some(t) => p is Text && p->Text_0@ == t@,
        None => p is Bytes && p->Bytes_0@ == base64_reading(payload_base64->Some_0@)->Ok_0,
    }
}

/// The payload that a base-64 form gives, once decoding was tried.
pub fn decoded_payload(decoded: Result<Vec<u8>, String>) -> (r: Result<Payload, PayloadError>)
    ensures
        match decoded {
            Ok(bytes) => r is Ok && r->Ok_0 is Bytes && r->Ok_0->Bytes_0 == bytes,
            Err(e) => r is Err && r->Err_0 is Base64 && r->Err_0->Base64_0 == e,
        },
{
    match decoded {
        Ok(bytes) => Ok(Payload::Bytes(bytes)),
        Err(e) => Err(PayloadError::Base64(e)),
    }
}

/// Takes the one payload of a request.
pub fn take_payload(text: Option<String>, payload_base64: Option<String>) -> (r: Result<Payload, PayloadError>)
    ensures
        match r {
            Ok(p) => is_payload_of(p, text, payload_base64),
            Err(PayloadError::Choice) => !one_payload(text, payload_base64),
            Err(PayloadError::Base64(e)) => decode_fails(text, payload_base64) && e@ == decode_error(
                payload_base64,
            ),
        },
{
    if text.is_some() == payload_base64.is_some() {
        return Err(PayloadError::Choice);
    }
    match text {
        Some(t) => Ok(Payload::Text(t)),
        None => match payload_base64 {
            Some(b) => decoded_payload(base64_decode(b.as_str())),
            None => Err(PayloadError::Choice),
        },
    }
}

/// Longest payload, in bytes, that can be shown as text alone.
pub const INLINE_TEXT_BYTES: usize = 256;

/// The text of a payload, where it is UTF-8.
pub open spec fn shown_text(bytes: Seq<u8>) -> Option<Seq<char>> {
    if valid_utf8(bytes) {
        Some(decode_utf8(bytes))
    } else {
        None
    }
}

/// A control character: below the space, or from the delete character to the end of its block.
pub open spec fn is_control(c: char) -> bool {
    c < ' ' || ('\u{7f}' <= c && c <= '\u{9f}')
}

/// A text without control characters.
pub open spec fn printable(s: Seq<char>) -> bool {
    forall|i: int| 0 <= i < s.len() ==> !is_control(#[trigger] s[i])
}

/// The base-64 form of a received sample: left out exactly where it is short printable text.
pub open spec fn sample_base64(bytes: Seq<u8>) -> Option<Seq<char>> {
    if valid_utf8(bytes) && bytes.len() <= INLINE_TEXT_BYTES && printable(decode_utf8(bytes)) {
        None
    } else {
        Some(base64_form(bytes))
    }
}

/// The base-64 form of an answer: left out exactly where it is short text.
pub open spec fn shown_base64(bytes: Seq<u8>) -> Option<Seq<char>> {
    if valid_utf8(bytes) && bytes.len() <= INLINE_TEXT_BYTES {
        None
    } else {
        Some(base64_form(bytes))
    }
}

/// The exact bytes can be had back: from the base-64 form where there is one, else from the text.
pub open spec fn recovers(text: Option<String>, payload_base64: Option<String>, bytes: Seq<u8>) -> bool {
    match payload_base64 {
        Some(b) => base64_reading(b@) is Ok && base64_reading(b@)->Ok_0 == bytes,
        None => text is Some && encode_utf8(text->Some_0@) == bytes,
    }
}

/// Whether a text has no control character.
pub fn is_printable(s: &str) -> (r: bool)
    ensures
        r == printable(s@),
{
    let chars = chars_of(s);
    let mut i: usize = 0;
    while i < chars.len()
        invariant
            i <= chars.len(),
            chars@ == s@,
            forall|k: int| 0 <= k < i ==> !is_control(#[trigger] s@[k]),
        decreases chars.len() - i,
    {
        let c = chars[i];
        if c < ' ' || ('\u{7f}' <= c && c <= '\u{9f}') {
            assert(is_control(s@[i as int]));
            return false;
        }
        i += 1;
    }
    true
}

/// Shows the payload of a sample as text, as base-64 or as both, so that no byte is lost.
pub fn show_sample(bytes: &[u8]) -> (r: (Option<String>, Option<String>))
    ensures
        opt_text(r.0) == shown_text(bytes@),
        opt_text(r.1) == sample_base64(bytes@),
        recovers(r.0, r.1, bytes@),
{
    let text = utf8_text(bytes);
    let plain = match &text {
        Some(t) => bytes.len() <= INLINE_TEXT_BYTES && is_printable(t.as_str()),
        None => false,
    };
    let payload_base64 = if plain {
        None
    } else {
        Some(base64_encode(bytes))
    };
    (text, payload_base64)
}

/// Shows the payload of an answer as text, as base-64 or as both, so that no byte is lost.
pub fn show_payload(bytes: &[u8]) -> (r: (Option<String>, Option<String>))
    ensures
        opt_text(r.0) == shown_text(bytes@),
        opt_text(r.1) == shown_base64(bytes@),
        recovers(r.0, r.1, bytes@),
{
    let text = utf8_text(bytes);
    let payload_base64 = if text.is_some() && bytes.len() <= INLINE_TEXT_BYTES {
        None
    } else {
        Some(base64_encode(bytes))
    };
    (text, payload_base64)
}

} // verus!
