//! Signed-cookie transport: a cookie value carries a session token behind
//! an integrity tag computed with the server's signing key, so a client
//! cannot forge or tamper with a token without the key.
//!
//! The cookie value is the tag in lowercase hexadecimal (128 characters)
//! followed by the token itself.

use vstd::prelude::*;
use vstd::string::StrSliceExecFns;
use vstd::string::StringExecFns;
use vstd::string::StringSliceAdditionalSpecFns;
use vstd::utf8::encode_utf8;
use crate::crypto::{bytes_eq, digest64, sha512};
use crate::hex::{
    all_hex_digits, hex_bytes, hex_decode, hex_encode, hex_of, lemma_hex_bytes_injective,
    lemma_hex_round_trip,
};

verus! {

/// Characters the hexadecimal tag occupies at the front of a cookie:
/// two per byte of the 64-byte digest.
pub const TAG_CHARS: usize = 128;

/// Why a cookie was turned away, before any session lookup.
#[derive(Clone, Copy, PartialEq, Eq, Structural, Debug)]
pub enum CodecError {
    Missing,
    TamperedOrInvalid,
}

/// The integrity tag over a token: the digest of the signing key followed
/// by the token's UTF-8 bytes.
pub open spec fn tag_of(token: Seq<char>, key: Seq<u8>) -> Seq<u8> {
    digest64(key + encode_utf8(token))
}

/// The cookie value that carries a token under a key.
pub open spec fn spec_encode(token: Seq<char>, key: Seq<u8>) -> Seq<char> {
    hex_of(tag_of(token, key)) + token
}

/// The token inside a cookie value, if its tag verifies under the key.
pub open spec fn spec_decode(cookie: Seq<char>, key: Seq<u8>) -> Option<Seq<char>> {
    if cookie.len() >= 128 && all_hex_digits(cookie.subrange(0, 128)) && hex_bytes(
        cookie.subrange(0, 128),
    ) == tag_of(cookie.subrange(128, cookie.len() as int), key) {
        Some(cookie.subrange(128, cookie.len() as int))
    } else {
        None
    }
}

/// Signs the token into a cookie value: the tag in hexadecimal, then the
/// token.
pub fn encode_cookie(token: &str, key: &Vec<u8>) -> (r: String)
    ensures
        r@ == spec_encode(token@, key@),
{
    let mut message: Vec<u8> = Vec::new();
    message.extend_from_slice(key.as_slice());
    message.extend_from_slice(token.as_bytes());
    proof {
        assert(message@ =~= key@ + token.spec_bytes());
    }
    let tag = sha512(&message);
    proof {
        assert(tag@ == tag_of(token@, key@));
    }
    let mut r = hex_encode(&tag);
    r.append(token);
    r
}

/// Recovers the token from a cookie value; refuses, without looking at
/// any session, a value whose tag does not verify under the key.
pub fn decode_cookie(cookie: &str, key: &Vec<u8>) -> (r: Result<String, CodecError>)
    ensures
        match r {
            Ok(t) => spec_decode(cookie@, key@) == Some(t@),
            Err(e) => e == CodecError::TamperedOrInvalid && spec_decode(cookie@, key@) is None,
        },
{
    let n = cookie.unicode_len();
    if n < TAG_CHARS {
        return Err(CodecError::TamperedOrInvalid);
    }
    let tag_part = cookie.substring_char(0, TAG_CHARS);
    let token_part = cookie.substring_char(TAG_CHARS, n);
    let tag = match hex_decode(tag_part) {
        Some(t) => t,
        None => {
            return Err(CodecError::TamperedOrInvalid);
        },
    };
    let mut message: Vec<u8> = Vec::new();
    message.extend_from_slice(key.as_slice());
    message.extend_from_slice(token_part.as_bytes());
    proof {
        assert(message@ =~= key@ + token_part.spec_bytes());
    }
    let expected = sha512(&message);
    proof {
        assert(expected@ == tag_of(token_part@, key@));
    }
    if bytes_eq(&tag, &expected) {
        Ok(String::from_str(token_part))
    } else {
        Err(CodecError::TamperedOrInvalid)
    }
}

/// Decodes the request's cookie, if it carried one at all: a request
/// without the cookie is told apart from one whose cookie does not
/// verify, and neither reaches any session lookup.
pub fn decode_request_cookie(cookie: Option<&str>, key: &Vec<u8>) -> (r: Result<
    String,
    CodecError,
>)
    ensures
        match r {
            Ok(t) => cookie is Some && spec_decode(cookie->0@, key@) == Some(t@),
            Err(CodecError::Missing) => cookie is None,
            Err(CodecError::TamperedOrInvalid) => cookie is Some && spec_decode(cookie->0@, key@)
                is None,
        },
{
    match cookie {
        Some(c) => decode_cookie(c, key),
        None => Err(CodecError::Missing),
    }
}

/// Round trip: decoding an encoded cookie under the same key gives the
/// token back, for every token and key.
pub proof fn lemma_codec_round_trip(token: Seq<char>, key: Seq<u8>)
    ensures
        spec_decode(spec_encode(token, key), key) == Some(token),
{
    let tag = tag_of(token, key);
    lemma_hex_round_trip(tag);
    let c = spec_encode(token, key);
    assert(c.subrange(0, 128) =~= hex_of(tag));
    assert(c.subrange(128, c.len() as int) =~= token);
}

/// A change anywhere in a cookie's tag region is detected: a cookie that
/// carries the same token as an encoding but a different tag region does
/// not decode.
pub proof fn lemma_codec_tag_tamper_detected(token: Seq<char>, key: Seq<u8>, cookie: Seq<char>)
    requires
        cookie.len() == spec_encode(token, key).len(),
        cookie.subrange(128, cookie.len() as int) == token,
        cookie.subrange(0, 128) != spec_encode(token, key).subrange(0, 128),
    ensures
        spec_decode(cookie, key) is None,
{
    let tag = tag_of(token, key);
    lemma_hex_round_trip(tag);
    let good = spec_encode(token, key);
    assert(good.subrange(0, 128) =~= hex_of(tag));
    let prefix = cookie.subrange(0, 128);
    if spec_decode(cookie, key) is Some {
        assert(all_hex_digits(prefix));
        assert(hex_bytes(prefix) == tag);
        lemma_hex_bytes_injective(prefix, hex_of(tag));
        assert(false);
    }
}

} // verus!
