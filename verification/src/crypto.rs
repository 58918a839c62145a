//! Random bytes, digests, and their texts.

use base64::engine::general_purpose::URL_SAFE_NO_PAD;
use base64::Engine;
use rand::RngCore;
use sha2::Digest;
use vstd::prelude::*;
use vstd::utf8::*;

use crate::text;

verus! {

/// The SHA-256 digest of bytes.
pub uninterp spec fn sha256(bytes: Seq<u8>) -> Seq<u8>;

/// Bytes in base64, with the alphabet for URLs and without padding.
pub uninterp spec fn base64_url(bytes: Seq<u8>) -> Seq<char>;

/// Calls `Sha256::digest`: the digest has 32 bytes and is a function of the bytes.
#[verifier::external_body]
fn digest(bytes: &[u8]) -> (r: Vec<u8>)
    ensures
        r@ == sha256(bytes@),
        r@.len() == 32,
{
    sha2::Sha256::digest(bytes).to_vec()
}

/// Calls `encode` on base64's engine `URL_SAFE_NO_PAD`: the text is a function of the
/// bytes.
#[verifier::external_body]
fn encode(bytes: &[u8]) -> (r: String)
    ensures
        r@ == base64_url(bytes@),
{
    URL_SAFE_NO_PAD.encode(bytes)
}

/// Fills bytes with `fill_bytes` of the generator that `rand::thread_rng` gives.
/// They are random: nothing is said of them but their number.
#[verifier::external_body]
pub(crate) fn random_bytes(n: usize) -> (r: Vec<u8>)
    ensures
        r@.len() == n,
{
    let mut bytes = vec![0u8; n];
    rand::thread_rng().fill_bytes(&mut bytes);
    bytes
}

/// Bytes in base64 for URLs.
pub fn to_base64_url(bytes: &[u8]) -> (r: String)
    ensures
        r@ == base64_url(bytes@),
{
    encode(bytes)
}

/// The challenge that belongs to a verifier: the digest of its text, in base64.
pub open spec fn challenge_of(verifier: Seq<char>) -> Seq<char> {
    base64_url(sha256(encode_utf8(verifier)))
}

/// The challenge that belongs to a verifier.
pub fn make_challenge(verifier: &str) -> (r: String)
    ensures
        r@ == challenge_of(verifier@),
{
    encode(&digest(verifier.as_bytes()))
}

/// Whether a verifier belongs to a challenge.
pub fn verify_pkce(verifier: &str, challenge: &str) -> (r: bool)
    ensures
        r == (challenge_of(verifier@) == challenge@),
{
    text::same(&make_challenge(verifier), challenge)
}

// ── Hexadecimal ───────────────────────────────────────────────────────────────

/// The hexadecimal digit `d`.
pub open spec fn hex_digit(d: int) -> char {
    if d < 10 {
        (48 + d) as u8 as char
    } else {
        (87 + d) as u8 as char
    }
}

/// Bytes in hexadecimal, two digits each.
pub open spec fn hex(bytes: Seq<u8>) -> Seq<char>
    decreases bytes.len(),
{
    if bytes.len() == 0 {
        seq![]
    } else {
        let b = bytes.last() as int;
        hex(bytes.drop_last()).push(hex_digit(b / 16)).push(hex_digit(b % 16))
    }
}

/// Whether a text is `n` bytes in hexadecimal.
pub open spec fn is_hex_text(s: Seq<char>, n: nat) -> bool {
    exists|bytes: Seq<u8>| bytes.len() == n && s == #[trigger] hex(bytes)
}

fn to_hex_digit(d: u8) -> (r: char)
    requires
        d < 16,
    ensures
        r == hex_digit(d as int),
{
    if d < 10 {
        (48 + d) as char
    } else {
        (87 + d) as char
    }
}

/// Bytes in hexadecimal, two digits each.
pub fn to_hex(bytes: &Vec<u8>) -> (r: String)
    ensures
        r@ == hex(bytes@),
{
    let mut out = String::new();
    let mut i: usize = 0;
    assert(bytes@.take(0) =~= Seq::<u8>::empty());
    while i < bytes.len()
        invariant
            i <= bytes@.len(),
            out@ == hex(bytes@.take(i as int)),
        decreases bytes@.len() - i,
    {
        assert(bytes@.take(i + 1).drop_last() =~= bytes@.take(i as int));
        let b = bytes[i];
        out.push(to_hex_digit(b / 16));
        out.push(to_hex_digit(b % 16));
        i += 1;
    }
    assert(bytes@.take(bytes@.len() as int) =~= bytes@);
    out
}

/// Two digits stand for each byte.
pub proof fn hex_has_two_digits_a_byte(bytes: Seq<u8>)
    ensures
        hex(bytes).len() == 2 * bytes.len(),
    decreases bytes.len(),
{
    if bytes.len() > 0 {
        hex_has_two_digits_a_byte(bytes.drop_last());
    }
}

/// The text of bytes has no white space.
pub proof fn hex_has_no_spaces(bytes: Seq<u8>)
    ensures
        forall|i: int| 0 <= i < hex(bytes).len() ==> !text::is_white(#[trigger] hex(bytes)[i]),
    decreases bytes.len(),
{
    if bytes.len() > 0 {
        hex_has_no_spaces(bytes.drop_last());
        let before = hex(bytes.drop_last());
        assert forall|i: int| 0 <= i < hex(bytes).len() implies !text::is_white(#[trigger] hex(bytes)[i]) by {
            if i < before.len() {
                assert(hex(bytes)[i] == before[i]);
            }
        }
    }
}

/// Different bytes have different texts.
pub proof fn hex_is_injective(a: Seq<u8>, b: Seq<u8>)
    requires
        hex(a) == hex(b),
    ensures
        a == b,
    decreases a.len(),
{
    hex_has_two_digits_a_byte(a);
    hex_has_two_digits_a_byte(b);
    if a.len() > 0 {
        let n = hex(a).len() as int;
        let x = a.last() as int;
        let y = b.last() as int;
        let ha = hex(a.drop_last());
        let hb = hex(b.drop_last());
        assert(hex(a) == ha.push(hex_digit(x / 16)).push(hex_digit(x % 16)));
        assert(hex(b) == hb.push(hex_digit(y / 16)).push(hex_digit(y % 16)));
        assert(hex(a)[n - 1] == hex_digit(x % 16));
        assert(hex(b)[n - 1] == hex_digit(y % 16));
        assert(hex(a)[n - 2] == hex_digit(x / 16));
        assert(hex(b)[n - 2] == hex_digit(y / 16));
        assert(x == y);
        assert(ha =~= hex(a).take(n - 2));
        assert(hb =~= hex(b).take(n - 2));
        hex_is_injective(a.drop_last(), b.drop_last());
        assert(a =~= a.drop_last().push(a.last()));
        assert(b =~= b.drop_last().push(b.last()));
    } else {
        assert(a =~= b);
    }
}

/// Each byte is written as two hexadecimal digits, in small letters: its upper half and then
/// its lower half.
pub proof fn bytes_have_their_digits(bytes: Seq<u8>, i: int)
    requires
        0 <= i < bytes.len(),
    ensures
        hex(bytes).len() == 2 * bytes.len(),
        ({
            let digits = seq!['0', '1', '2', '3', '4', '5', '6', '7', '8', '9', 'a', 'b', 'c', 'd', 'e', 'f'];
            &&& hex(bytes)[2 * i] == digits[bytes[i] as int / 16]
            &&& hex(bytes)[2 * i + 1] == digits[bytes[i] as int % 16]
        }),
    decreases bytes.len(),
{
    hex_has_two_digits_a_byte(bytes);
    hex_has_two_digits_a_byte(bytes.drop_last());
    if i < bytes.len() - 1 {
        bytes_have_their_digits(bytes.drop_last(), i);
        assert(bytes.drop_last()[i] == bytes[i]);
    } else {
        digit_table(bytes[i] as int / 16);
        digit_table(bytes[i] as int % 16);
    }
}

proof fn digit_table(d: int)
    requires
        0 <= d < 16,
    ensures
        hex_digit(d) == seq!['0', '1', '2', '3', '4', '5', '6', '7', '8', '9', 'a', 'b', 'c', 'd', 'e', 'f'][d],
{
}

/// The challenge of a verifier is the digest of its bytes in base64.
pub proof fn challenges_are_digests(verifier: Seq<char>)
    ensures
        challenge_of(verifier) == base64_url(sha256(encode_utf8(verifier))),
{
}

} // verus!
