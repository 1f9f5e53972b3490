//! Base64url (RFC 4648 §5) without padding, and standard base64.

use vstd::prelude::*;
use base64::Engine;
use base64::engine::general_purpose::{STANDARD, URL_SAFE_NO_PAD};

verus! {

#[verifier::external_type_specification]
#[verifier::external_body]
pub struct ExDecodeError(base64::DecodeError);

/// The character of the value `n` (below 64) in a base64 alphabet whose
/// last two characters are `c62` and `c63`.
pub open spec fn b64_char(n: int, c62: char, c63: char) -> char {
    if n < 26 {
        (65 + n) as char
    } else if n < 52 {
        (71 + n) as char
    } else if n < 62 {
        (n - 4) as char
    } else if n == 62 {
        c62
    } else {
        c63
    }
}

/// Base64 (RFC 4648) of `data` in the alphabet ending with `c62` and `c63`:
/// each group of three bytes as four characters of six bits each, a last
/// group of one or two bytes as two or three characters, padded with `=` to
/// four when `pad`.
pub open spec fn b64_text(data: Seq<u8>, c62: char, c63: char, pad: bool) -> Seq<char>
    decreases data.len(),
{
    let b0 = data[0] as int;
    let b1 = data[1] as int;
    let b2 = data[2] as int;
    if data.len() == 0 {
        Seq::empty()
    } else if data.len() == 1 {
        seq![b64_char(b0 / 4, c62, c63), b64_char((b0 % 4) * 16, c62, c63)] + if pad {
            seq!['=', '=']
        } else {
            Seq::empty()
        }
    } else if data.len() == 2 {
        seq![
            b64_char(b0 / 4, c62, c63),
            b64_char((b0 % 4) * 16 + b1 / 16, c62, c63),
            b64_char((b1 % 16) * 4, c62, c63),
        ] + if pad {
            seq!['=']
        } else {
            Seq::empty()
        }
    } else {
        seq![
            b64_char(b0 / 4, c62, c63),
            b64_char((b0 % 4) * 16 + b1 / 16, c62, c63),
            b64_char((b1 % 16) * 4 + b2 / 64, c62, c63),
            b64_char(b2 % 64, c62, c63),
        ] + b64_text(data.skip(3), c62, c63, pad)
    }
}

/// The unpadded base64url text of `data`.
pub open spec fn b64url_text(data: Seq<u8>) -> Seq<char> {
    b64_text(data, '-', '_', false)
}

/// The padded standard-alphabet base64 text of `data`.
pub open spec fn b64_standard_text(data: Seq<u8>) -> Seq<char> {
    b64_text(data, '+', '/', true)
}

/// The bytes whose unpadded base64url text is `text`, or `None` when no
/// bytes have it: the decoder accepts exactly the encoder's texts (no
/// padding, no character outside the alphabet, no stray trailing bits).
pub open spec fn b64url_decoded(text: Seq<char>) -> Option<Seq<u8>> {
    if exists|d: Seq<u8>| #[trigger] b64url_text(d) == text {
        Some(choose|d: Seq<u8>| #[trigger] b64url_text(d) == text)
    } else {
        None
    }
}

/// Unpadded base64url text is `ceil(4n/3)` characters long, every one from
/// the URL-safe alphabet.
pub proof fn lemma_b64url_text(data: Seq<u8>)
    ensures
        b64url_text(data).len() == (4 * data.len() + 2) / 3,
        forall|i: int| 0 <= i < b64url_text(data).len() ==> is_b64url_char(#[trigger] b64url_text(data)[i]),
    decreases data.len(),
{
    let t = b64url_text(data);
    if data.len() >= 3 {
        lemma_b64url_text(data.skip(3));
    }
    assert forall|n: int| 0 <= n < 64 implies is_b64url_char(#[trigger] b64_char(n, '-', '_')) by {}
    let (b0, b1, b2) = (data[0] as int, data[1] as int, data[2] as int);
    assert(0 <= b0 / 4 < 64 && 0 <= (b0 % 4) * 16 < 64 && 0 <= (b0 % 4) * 16 + b1 / 16 < 64);
    assert(0 <= (b1 % 16) * 4 < 64 && 0 <= (b1 % 16) * 4 + b2 / 64 < 64 && 0 <= b2 % 64 < 64);
    if data.len() >= 3 {
        let r = b64url_text(data.skip(3));
        assert forall|i: int| 0 <= i < t.len() implies is_b64url_char(#[trigger] t[i]) by {
            if i >= 4 {
                assert(t[i] == r[i - 4]);
            }
        }
    }
}

/// A character of the URL-safe base64 alphabet.
pub open spec fn is_b64url_char(c: char) -> bool {
    ('A' <= c <= 'Z') || ('a' <= c <= 'z') || ('0' <= c <= '9') || c == '-' || c == '_'
}

/// Calls `URL_SAFE_NO_PAD.encode`. Trusted: the result is the RFC 4648
/// base64url text of `data` without padding, and (the encoding being one to
/// one) it decodes back to `data`.
#[verifier::external_body]
fn url_safe_no_pad_encode(data: &[u8]) -> (res: String)
    ensures
        res@ == b64url_text(data@),
        b64url_decoded(res@) == Some(data@),
{
    URL_SAFE_NO_PAD.encode(data)
}

/// Calls `URL_SAFE_NO_PAD.decode`. Trusted: it succeeds exactly when `s` is
/// the unpadded base64url text of some bytes (the engine requires no
/// padding and refuses stray trailing bits), and then returns those bytes.
#[verifier::external_body]
fn url_safe_no_pad_decode(s: &str) -> (res: Result<Vec<u8>, base64::DecodeError>)
    ensures
        res is Ok <==> b64url_decoded(s@) is Some,
        res matches Ok(v) ==> b64url_decoded(s@) == Some(v@),
{
    URL_SAFE_NO_PAD.decode(s)
}

/// Calls `STANDARD.encode`. Trusted: the result is the RFC 4648 padded
/// base64 text of `data` in the standard alphabet.
#[verifier::external_body]
pub(crate) fn standard_encode(data: &[u8]) -> (res: String)
    ensures
        res@ == b64_standard_text(data@),
{
    STANDARD.encode(data)
}

/// Calls `DecodeError`'s `Display`. Nothing is stated of the message.
#[verifier::external_body]
pub(crate) fn decode_error_message(e: &base64::DecodeError) -> String {
    e.to_string()
}

/// Unpadded base64url encoding.
pub fn b64url_encode(data: &[u8]) -> (res: String)
    ensures
        res@ == b64url_text(data@),
        res@.len() == (4 * data@.len() + 2) / 3,
        forall|i: int| 0 <= i < res@.len() ==> is_b64url_char(#[trigger] res@[i]),
        b64url_decoded(res@) == Some(data@),
{
    proof { lemma_b64url_text(data@); }
    url_safe_no_pad_encode(data)
}

/// Unpadded base64url decoding.
pub fn b64url_decode(s: &str) -> (res: Result<Vec<u8>, base64::DecodeError>)
    ensures
        res is Ok <==> b64url_decoded(s@) is Some,
        res is Ok ==> forall|i: int| 0 <= i < s@.len() ==> is_b64url_char(#[trigger] s@[i]),
        res matches Ok(v) ==> b64url_decoded(s@) == Some(v@),
{
    let res = url_safe_no_pad_decode(s);
    proof {
        if res is Ok {
            let d = choose|d: Seq<u8>| #[trigger] b64url_text(d) == s@;
            lemma_b64url_text(d);
        }
    }
    res
}

} // verus!
