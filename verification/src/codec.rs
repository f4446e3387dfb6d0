//! Byte encodings: SHA-256 digests, base-64, UTF-8 and hexadecimal.

use base64::engine::general_purpose::STANDARD;
use base64::Engine;
use sha2::{Digest, Sha256};
use vstd::prelude::*;
use vstd::utf8::*;

verus! {

broadcast use {vstd::utf8::encode_utf8_decode_utf8, vstd::utf8::decode_utf8_encode_utf8};

/// The SHA-256 digest of a byte string, as `sha2` computes it.
pub uninterp spec fn sha256(data: Seq<u8>) -> Seq<u8>;

/// The standard padded base-64 form of a byte string, as `base64` writes it.
pub uninterp spec fn base64_form(data: Seq<u8>) -> Seq<char>;

/// What `base64` makes of a text: the bytes, or the wording of its error.
pub uninterp spec fn base64_reading(text: Seq<char>) -> Result<Seq<u8>, Seq<char>>;

/// `sha2::Sha256::digest`: the digest depends on the bytes alone and is 32 bytes long.
#[verifier::external_body]
pub(crate) fn sha256_digest(data: &[u8]) -> (r: Vec<u8>)
    ensures
        r@ == sha256(data@),
        r@.len() == 32,
{
    Sha256::digest(data).to_vec()
}

/// `base64`'s `Engine::encode` with the `STANDARD` engine: the text depends on the bytes
/// alone, and reading it back with the same engine gives the bytes.
#[verifier::external_body]
pub(crate) fn base64_encode(data: &[u8]) -> (r: String)
    ensures
        r@ == base64_form(data@),
        base64_reading(r@) is Ok,
        base64_reading(r@)->Ok_0 == data@,
{
    STANDARD.encode(data)
}

/// `base64`'s `Engine::decode` with the `STANDARD` engine. The outcome depends on the text
/// alone; an error is handed on as its `Display` text.
#[verifier::external_body]
pub(crate) fn base64_decode(text: &str) -> (r: Result<Vec<u8>, String>)
    ensures
        r is Ok <==> base64_reading(text@) is Ok,
        r matches Ok(bytes) ==> bytes@ == base64_reading(text@)->Ok_0,
        r matches Err(e) ==> e@ == base64_reading(text@)->Err_0,
{
    match STANDARD.decode(text) {
        Ok(bytes) => Ok(bytes),
        Err(e) => Err(e.to_string()),
    }
}

/// `std::str::from_utf8`: a text exactly where the bytes are valid UTF-8, and then the text
/// that they encode.
#[verifier::external_body]
pub(crate) fn utf8_text(bytes: &[u8]) -> (r: Option<String>)
    ensures
        r is Some <==> valid_utf8(bytes@),
        r matches Some(text) ==> text@ == decode_utf8(bytes@),
{
    match std::str::from_utf8(bytes) {
        Ok(s) => Some(s.to_string()),
        Err(_) => None,
    }
}

/// The lower-case hexadecimal digit of a number below sixteen.
pub open spec fn hex_digit(n: int) -> char {
    if n < 10 {
        (48 + n) as u8 as char
    } else {
        (87 + n) as u8 as char
    }
}

/// Two lower-case hexadecimal digits per byte, high half first.
pub open spec fn hex_form(bytes: Seq<u8>) -> Seq<char> {
    Seq::new(
        2 * bytes.len(),
        |i: int|
            hex_digit(
                if i % 2 == 0 {
                    bytes[i / 2] as int / 16
                } else {
                    bytes[i / 2] as int % 16
                },
            ),
    )
}

/// The first `n` items, or all where there are fewer.
pub open spec fn at_most<T>(s: Seq<T>, n: int) -> Seq<T> {
    if s.len() <= n {
        s
    } else {
        s.take(n)
    }
}

fn digit_char(n: u8) -> (c: char)
    requires
        n < 16,
    ensures
        c == hex_digit(n as int),
{
    if n < 10 {
        (48 + n) as char
    } else {
        (87 + n) as char
    }
}

/// A lower-case hexadecimal digit.
pub open spec fn is_hex(c: char) -> bool {
    ('0' <= c && c <= '9') || ('a' <= c && c <= 'f')
}

/// The first `hex_chars` characters of the hexadecimal form of `bytes`.
pub fn hex_prefix(bytes: &[u8], hex_chars: usize) -> (r: String)
    ensures
        r@ == at_most(hex_form(bytes@), hex_chars as int),
        forall|i: int| 0 <= i < r@.len() ==> is_hex(#[trigger] r@[i]),
{
    let mut r = String::new();
    let mut written: usize = 0;
    let mut i: usize = 0;
    while i < bytes.len() && written < hex_chars
        invariant
            i <= bytes.len(),
            written <= hex_chars,
            written <= 2 * i,
            written == 2 * i || written == hex_chars,
            r@ == hex_form(bytes@).take(written as int),
        decreases bytes.len() - i,
    {
        let ghost all = hex_form(bytes@);
        let b: u8 = bytes[i];
        r.push(digit_char(b / 16));
        assert(all.take(written + 1) =~= all.take(written as int).push(all[written as int]));
        written += 1;
        if written < hex_chars {
            r.push(digit_char(b % 16));
            assert(all.take(written + 1) =~= all.take(written as int).push(all[written as int]));
            written += 1;
        }
        i += 1;
    }
    assert(r@ =~= at_most(hex_form(bytes@), hex_chars as int));
    r
}

} // verus!
