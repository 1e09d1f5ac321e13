//! The hexadecimal rendering and the signed-cookie codec, including the
//! round trip and tamper detection with the real digest.

use polls::codec::{decode_cookie, decode_request_cookie, encode_cookie, CodecError};
use polls::hex::{hex_decode, hex_encode};

#[test]
fn hex_encode_exact_value() {
    assert_eq!(hex_encode(&vec![]), "");
    assert_eq!(hex_encode(&vec![0x00, 0xff, 0x1a]), "00ff1a");
    assert_eq!(hex_encode(&vec![0x0f, 0xf0]), "0ff0");
}

#[test]
fn hex_decode_exact_value() {
    assert_eq!(hex_decode("00ff1a"), Some(vec![0x00, 0xff, 0x1a]));
    assert_eq!(hex_decode(""), Some(vec![]));
}

#[test]
fn hex_decode_refuses_odd_length_and_other_characters() {
    assert_eq!(hex_decode("abc"), None);
    assert_eq!(hex_decode("zz"), None);
    assert_eq!(hex_decode("0G"), None);
    assert_eq!(hex_decode("AB"), None, "uppercase digits are not part of this rendering");
}

#[test]
fn hex_round_trip_on_every_byte_value() {
    let all: Vec<u8> = (0u8..=255u8).collect();
    let rendered = hex_encode(&all);
    assert_eq!(rendered.len(), 512);
    assert_eq!(hex_decode(&rendered), Some(all));
}

#[test]
fn cookie_round_trip() {
    let key = vec![7u8; 64];
    let cookie = encode_cookie("sometoken123", &key);
    assert_eq!(decode_cookie(&cookie, &key), Ok(String::from("sometoken123")));
}

#[test]
fn cookie_layout_is_tag_then_token() {
    let key = vec![1u8, 2, 3];
    let cookie = encode_cookie("tok", &key);
    assert_eq!(cookie.len(), 128 + 3);
    assert!(cookie.ends_with("tok"));
    assert!(cookie[..128].bytes().all(|b| b.is_ascii_hexdigit()));
}

#[test]
fn cookie_with_empty_token_round_trips() {
    let key = vec![9u8; 64];
    let cookie = encode_cookie("", &key);
    assert_eq!(cookie.len(), 128);
    assert_eq!(decode_cookie(&cookie, &key), Ok(String::from("")));
}

#[test]
fn tampered_tag_is_detected() {
    let key = vec![5u8; 64];
    let cookie = encode_cookie("sometoken123", &key);
    let mut chars: Vec<char> = cookie.chars().collect();
    // Change one hexadecimal digit of the tag to a different digit.
    chars[0] = if chars[0] == '0' { '1' } else { '0' };
    let tampered: String = chars.iter().collect();
    assert_eq!(decode_cookie(&tampered, &key), Err(CodecError::TamperedOrInvalid));
}

#[test]
fn tampered_token_is_detected() {
    let key = vec![5u8; 64];
    let cookie = encode_cookie("sometoken123", &key);
    let mut chars: Vec<char> = cookie.chars().collect();
    let last = chars.len() - 1;
    chars[last] = if chars[last] == 'a' { 'b' } else { 'a' };
    let tampered: String = chars.iter().collect();
    assert_eq!(decode_cookie(&tampered, &key), Err(CodecError::TamperedOrInvalid));
}

#[test]
fn wrong_key_is_detected() {
    let cookie = encode_cookie("sometoken123", &vec![5u8; 64]);
    assert_eq!(decode_cookie(&cookie, &vec![6u8; 64]), Err(CodecError::TamperedOrInvalid));
}

#[test]
fn short_and_garbled_cookies_are_refused() {
    let key = vec![5u8; 64];
    assert_eq!(decode_cookie("", &key), Err(CodecError::TamperedOrInvalid));
    assert_eq!(decode_cookie("abc", &key), Err(CodecError::TamperedOrInvalid));
    let not_hex: String = std::iter::repeat('z').take(130).collect();
    assert_eq!(decode_cookie(&not_hex, &key), Err(CodecError::TamperedOrInvalid));
}

#[test]
fn missing_cookie_is_its_own_error() {
    let key = vec![5u8; 64];
    assert_eq!(decode_request_cookie(None, &key), Err(CodecError::Missing));
    let cookie = encode_cookie("tok", &key);
    assert_eq!(decode_request_cookie(Some(&cookie), &key), Ok(String::from("tok")));
}
