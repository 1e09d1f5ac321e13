//! The two outside ingredients of the authentication core — the SHA-512
//! digest and the process-wide random generator — together with the clock.
//! Everything here that is believed rather than proved is a thin wrapper
//! around one outside function.

use vstd::prelude::*;

verus! {

/// The bytes that SHA-512 assigns to a message. The digest is a pure
/// function of the message bytes, so it can carry a name; nothing in this
/// crate states which bytes it is on any given message.
pub uninterp spec fn sha512_of(message: Seq<u8>) -> Seq<u8>;

/// `sha512_of`, made total at the 64-byte output length that SHA-512 is
/// documented to have. Contracts built on this function need no side
/// condition about the digest's length.
pub open spec fn digest64(message: Seq<u8>) -> Seq<u8> {
    if sha512_of(message).len() == 64 {
        sha512_of(message)
    } else {
        Seq::new(64, |i: int| 0u8)
    }
}

/// Relies on sha2's `Sha512::digest`: a 64-byte digest that depends on the
/// message bytes alone.
#[verifier::external_body]
pub fn sha512(message: &Vec<u8>) -> (r: Vec<u8>)
    ensures
        r@ == sha512_of(message@),
        r@.len() == 64,
{
    let digest = <sha2::Sha512 as sha2::Digest>::digest(message.as_slice());
    digest.to_vec()
}

/// The characters that rand's `Alphanumeric` distribution draws from:
/// the digits and the Latin letters of both cases.
pub open spec fn is_alphanumeric_char(c: char) -> bool {
    (48 <= c as u32 && c as u32 <= 57) || (65 <= c as u32 && c as u32 <= 90) || (97 <= c as u32
        && c as u32 <= 122)
}

/// A sequence made of alphanumeric characters only.
pub open spec fn all_alphanumeric(s: Seq<char>) -> bool {
    forall|i: int| 0 <= i < s.len() ==> is_alphanumeric_char(#[trigger] s[i])
}

/// Relies on rand's `Rng::fill_bytes` on the thread-local generator:
/// it fills the whole buffer. Nothing is stated about the bytes themselves;
/// two calls may or may not agree.
#[verifier::external_body]
pub fn random_bytes(n: usize) -> (r: Vec<u8>)
    ensures
        r@.len() == n,
{
    let mut buf = vec![0u8; n];
    let mut generator = rand::rng();
    rand::Rng::fill_bytes(&mut generator, buf.as_mut_slice());
    buf
}

/// Relies on rand's `Alphanumeric` distribution through `SampleString`:
/// every drawn character is a digit or a Latin letter. Nothing is stated
/// about which characters are drawn.
#[verifier::external_body]
pub fn random_alphanumeric(n: usize) -> (r: String)
    ensures
        r@.len() == n,
        all_alphanumeric(r@),
{
    let mut generator = rand::rng();
    rand::distr::SampleString::sample_string(&rand::distr::Alphanumeric, &mut generator, n)
}

/// Byte-for-byte comparison of two byte strings. It stops at the first
/// difference, so its running time depends on where the inputs diverge;
/// a comparison whose timing is independent of the data is a hardening
/// step this core does not take.
pub fn bytes_eq(a: &Vec<u8>, b: &Vec<u8>) -> (r: bool)
    ensures
        r == (a@ == b@),
{
    if a.len() != b.len() {
        return false;
    }
    let n = a.len();
    let mut i: usize = 0;
    while i < n
        invariant
            n == a@.len(),
            n == b@.len(),
            i <= n,
            forall|j: int| 0 <= j < i ==> a@[j] == b@[j],
        decreases n - i,
    {
        if a[i] != b[i] {
            return false;
        }
        i = i + 1;
    }
    proof {
        assert(a@ =~= b@);
    }
    true
}

/// Relies on chrono's `Utc::now`: the clock's reading as whole seconds
/// since the Unix epoch. Nothing is stated of the value; callers must hold
/// for every reading.
#[verifier::external_body]
pub fn current_timestamp() -> (r: i64) {
    chrono::Utc::now().timestamp()
}

} // verus!
