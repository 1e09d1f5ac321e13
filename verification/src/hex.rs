//! Lowercase hexadecimal encoding of byte strings, used to carry the
//! cookie's integrity tag inside a cookie-safe string. Encoding and
//! decoding are verified inverses of one another.

use vstd::prelude::*;

verus! {

/// What `String::push` appends; vstd gives this method no specification.
pub assume_specification[ String::push ](s: &mut String, c: char)
    ensures
        final(s)@ == old(s)@.push(c),
;

/// The lowercase hexadecimal digit for a value below sixteen.
pub open spec fn hex_digit_char(n: u8) -> char
    recommends
        n < 16,
{
    if n == 0 {
        '0'
    } else if n == 1 {
        '1'
    } else if n == 2 {
        '2'
    } else if n == 3 {
        '3'
    } else if n == 4 {
        '4'
    } else if n == 5 {
        '5'
    } else if n == 6 {
        '6'
    } else if n == 7 {
        '7'
    } else if n == 8 {
        '8'
    } else if n == 9 {
        '9'
    } else if n == 10 {
        'a'
    } else if n == 11 {
        'b'
    } else if n == 12 {
        'c'
    } else if n == 13 {
        'd'
    } else if n == 14 {
        'e'
    } else {
        'f'
    }
}

/// The value of a lowercase hexadecimal digit; sixteen marks any other
/// character.
pub open spec fn hex_char_val(c: char) -> u8 {
    if 48 <= c as u32 && c as u32 <= 57 {
        (c as u32 - 48) as u8
    } else if 97 <= c as u32 && c as u32 <= 102 {
        (c as u32 - 87) as u8
    } else {
        16
    }
}

pub open spec fn is_hex_digit_char(c: char) -> bool {
    hex_char_val(c) != 16
}

pub open spec fn all_hex_digits(s: Seq<char>) -> bool {
    forall|i: int| 0 <= i < s.len() ==> is_hex_digit_char(#[trigger] s[i])
}

/// The hexadecimal rendering of a byte string: two digits per byte, high
/// nibble first.
pub open spec fn hex_of(bytes: Seq<u8>) -> Seq<char> {
    Seq::new(
        bytes.len() * 2,
        |i: int|
            if i % 2 == 0 {
                hex_digit_char((bytes[i / 2] / 16) as u8)
            } else {
                hex_digit_char((bytes[i / 2] % 16) as u8)
            },
    )
}

/// The bytes behind a run of hexadecimal digits; meaningful when the run
/// has even length and every character is a digit.
pub open spec fn hex_bytes(s: Seq<char>) -> Seq<u8> {
    Seq::new(s.len() / 2, |i: int| (hex_char_val(s[2 * i]) * 16 + hex_char_val(s[2 * i + 1])) as u8)
}

proof fn lemma_hex_digit_round_trip(n: u8)
    requires
        n < 16,
    ensures
        is_hex_digit_char(hex_digit_char(n)),
        hex_char_val(hex_digit_char(n)) == n,
{
}

/// Distinct hexadecimal digits denote distinct values, so a decoded tag
/// pins the digits it was read from.
proof fn lemma_hex_digit_injective(c1: char, c2: char)
    requires
        is_hex_digit_char(c1),
        is_hex_digit_char(c2),
        hex_char_val(c1) == hex_char_val(c2),
    ensures
        c1 == c2,
{
}

/// Encoding then decoding gives the bytes back: the two directions are
/// inverses on every byte string.
pub proof fn lemma_hex_round_trip(bytes: Seq<u8>)
    ensures
        hex_of(bytes).len() == 2 * bytes.len(),
        all_hex_digits(hex_of(bytes)),
        hex_bytes(hex_of(bytes)) == bytes,
{
    let s = hex_of(bytes);
    assert forall|i: int| 0 <= i < s.len() implies is_hex_digit_char(#[trigger] s[i]) by {
        if i % 2 == 0 {
            lemma_hex_digit_round_trip((bytes[i / 2] / 16) as u8);
        } else {
            lemma_hex_digit_round_trip((bytes[i / 2] % 16) as u8);
        }
    }
    assert forall|i: int| 0 <= i < bytes.len() implies hex_bytes(s)[i] == bytes[i] by {
        lemma_hex_digit_round_trip((bytes[i] / 16) as u8);
        lemma_hex_digit_round_trip((bytes[i] % 16) as u8);
        assert(s[2 * i] == hex_digit_char((bytes[i] / 16) as u8));
        assert(s[2 * i + 1] == hex_digit_char((bytes[i] % 16) as u8));
    }
    assert(hex_bytes(s) =~= bytes);
}

/// Two digit runs that decode to the same bytes are the same run: decoding
/// loses nothing.
pub proof fn lemma_hex_bytes_injective(s1: Seq<char>, s2: Seq<char>)
    requires
        s1.len() == s2.len(),
        s1.len() % 2 == 0,
        all_hex_digits(s1),
        all_hex_digits(s2),
        hex_bytes(s1) == hex_bytes(s2),
    ensures
        s1 == s2,
{
    assert forall|i: int| 0 <= i < s1.len() implies s1[i] == s2[i] by {
        let j = i / 2;
        assert(hex_bytes(s1)[j] == hex_bytes(s2)[j]);
        let a1 = hex_char_val(s1[2 * j]);
        let b1 = hex_char_val(s1[2 * j + 1]);
        let a2 = hex_char_val(s2[2 * j]);
        let b2 = hex_char_val(s2[2 * j + 1]);
        assert(is_hex_digit_char(s1[2 * j]) && is_hex_digit_char(s1[2 * j + 1]));
        assert(is_hex_digit_char(s2[2 * j]) && is_hex_digit_char(s2[2 * j + 1]));
        assert(a1 < 16 && b1 < 16 && a2 < 16 && b2 < 16);
        assert(0 <= j < s1.len() / 2);
        assert(hex_bytes(s1)[j] == (a1 * 16 + b1) as u8);
        assert(hex_bytes(s2)[j] == (a2 * 16 + b2) as u8);
        assert((a1 * 16 + b1) as u8 == (a2 * 16 + b2) as u8);
        assert(a1 * 16 + b1 < 256 && a2 * 16 + b2 < 256);
        assert(a1 * 16 + b1 == a2 * 16 + b2);
        assert(a1 == a2 && b1 == b2);
        lemma_hex_digit_injective(s1[2 * j], s2[2 * j]);
        lemma_hex_digit_injective(s1[2 * j + 1], s2[2 * j + 1]);
    }
    assert(s1 =~= s2);
}

fn hex_digit(n: u8) -> (c: char)
    requires
        n < 16,
    ensures
        c == hex_digit_char(n),
{
    if n == 0 {
        '0'
    } else if n == 1 {
        '1'
    } else if n == 2 {
        '2'
    } else if n == 3 {
        '3'
    } else if n == 4 {
        '4'
    } else if n == 5 {
        '5'
    } else if n == 6 {
        '6'
    } else if n == 7 {
        '7'
    } else if n == 8 {
        '8'
    } else if n == 9 {
        '9'
    } else if n == 10 {
        'a'
    } else if n == 11 {
        'b'
    } else if n == 12 {
        'c'
    } else if n == 13 {
        'd'
    } else if n == 14 {
        'e'
    } else {
        'f'
    }
}

fn hex_val(c: char) -> (r: u8)
    ensures
        r == hex_char_val(c),
{
    let u = c as u32;
    if 48 <= u && u <= 57 {
        (u - 48) as u8
    } else if 97 <= u && u <= 102 {
        (u - 87) as u8
    } else {
        16
    }
}

/// Renders a byte string as lowercase hexadecimal.
pub fn hex_encode(bytes: &Vec<u8>) -> (r: String)
    ensures
        r@ == hex_of(bytes@),
{
    let mut r = String::new();
    let mut i: usize = 0;
    while i < bytes.len()
        invariant
            i <= bytes@.len(),
            r@ =~= hex_of(bytes@).subrange(0, 2 * i as int),
        decreases bytes@.len() - i,
    {
        let b = bytes[i];
        r.push(hex_digit(b / 16));
        r.push(hex_digit(b % 16));
        proof {
            assert(r@ =~= hex_of(bytes@).subrange(0, 2 * (i + 1) as int));
        }
        i = i + 1;
    }
    proof {
        assert(r@ =~= hex_of(bytes@));
    }
    r
}

/// Reads a run of lowercase hexadecimal digits back into bytes; refuses a
/// run of odd length or with any other character in it.
pub fn hex_decode(s: &str) -> (r: Option<Vec<u8>>)
    ensures
        match r {
            Some(v) => s@.len() % 2 == 0 && all_hex_digits(s@) && v@ == hex_bytes(s@),
            None => !(s@.len() % 2 == 0 && all_hex_digits(s@)),
        },
{
    let n = s.unicode_len();
    if n % 2 != 0 {
        return None;
    }
    let mut out: Vec<u8> = Vec::new();
    let mut j: usize = 0;
    while j < n / 2
        invariant
            s@.len() == n,
            n % 2 == 0,
            j <= n / 2,
            out@ =~= hex_bytes(s@).subrange(0, j as int),
            forall|k: int| 0 <= k < 2 * j ==> is_hex_digit_char(#[trigger] s@[k]),
        decreases n / 2 - j,
    {
        let c_hi = s.get_char(2 * j);
        let c_lo = s.get_char(2 * j + 1);
        let hi = hex_val(c_hi);
        let lo = hex_val(c_lo);
        if hi == 16 || lo == 16 {
            return None;
        }
        out.push(hi * 16 + lo);
        proof {
            assert(out@ =~= hex_bytes(s@).subrange(0, j + 1 as int));
        }
        j = j + 1;
    }
    proof {
        assert(out@ =~= hex_bytes(s@));
    }
    Some(out)
}

} // verus!
