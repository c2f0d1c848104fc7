//! Fingerprints of puzzle states: the SHA-256 digest of a content snapshot,
//! written as 64 lower-case hexadecimal characters.

use sha2::{Digest, Sha256};
use vstd::prelude::*;
use vstd::string::*;

use crate::text::{digit_char, digit_str};

verus! {

/// The SHA-256 digest of `data`, as computed by the `sha2` crate.
pub uninterp spec fn sha256(data: Seq<u8>) -> Seq<u8>;

/// Calls `sha2::Sha256::digest` and copies the digest into a vector.
///
/// Trusted: the digest is a function of the input bytes alone, and a SHA-256
/// digest is 32 bytes long. Nothing else is claimed about its contents.
#[verifier::external_body]
fn sha256_digest(data: &[u8]) -> (digest: Vec<u8>)
    ensures
        digest@ == sha256(data@),
        digest@.len() == 32,
{
    Sha256::digest(data).to_vec()
}

/// Character `i` of the hexadecimal rendering of `bytes`: even positions hold
/// the high half of a byte, odd positions the low half.
pub open spec fn hex_char_at(bytes: Seq<u8>, i: int) -> char {
    if i % 2 == 0 {
        digit_char(bytes[i / 2] as int / 16)
    } else {
        digit_char(bytes[i / 2] as int % 16)
    }
}

/// The hexadecimal rendering of `bytes`: two lower-case digits per byte.
pub open spec fn hex_encoding(bytes: Seq<u8>) -> Seq<char> {
    Seq::new(2 * bytes.len(), |i: int| hex_char_at(bytes, i))
}

/// The fingerprint of a content snapshot.
pub open spec fn fingerprint_of(snapshot: Seq<u8>) -> Seq<char> {
    hex_encoding(sha256(snapshot))
}

/// Different byte strings have different hexadecimal renderings.
pub proof fn lemma_hex_encoding_injective(a: Seq<u8>, b: Seq<u8>)
    requires
        hex_encoding(a) == hex_encoding(b),
    ensures
        a == b,
{
    assert(hex_encoding(a).len() == 2 * a.len());
    assert(hex_encoding(b).len() == 2 * b.len());
    assert forall|i: int| 0 <= i < a.len() implies a[i] == b[i] by {
        let high = 2 * i;
        let low = 2 * i + 1;
        assert(high / 2 == i && high % 2 == 0);
        assert(low / 2 == i && low % 2 == 1);
        assert(hex_encoding(a)[high] == hex_char_at(a, high));
        assert(hex_encoding(b)[high] == hex_char_at(b, high));
        assert(hex_encoding(a)[low] == hex_char_at(a, low));
        assert(hex_encoding(b)[low] == hex_char_at(b, low));
        let x = a[i] as int;
        let y = b[i] as int;
        assert(x / 16 == y / 16);
        assert(x % 16 == y % 16);
    }
    assert(a =~= b);
}

/// Two snapshots have the same fingerprint exactly when they have the same
/// digest.
pub proof fn lemma_fingerprint_equality(first: Seq<u8>, second: Seq<u8>)
    ensures
        fingerprint_of(first) == fingerprint_of(second) <==> sha256(first) == sha256(second),
{
    if fingerprint_of(first) == fingerprint_of(second) {
        lemma_hex_encoding_injective(sha256(first), sha256(second));
    }
}

/// Renders `bytes` in lower-case hexadecimal.
pub fn to_hex(bytes: &[u8]) -> (text: String)
    ensures
        text@ == hex_encoding(bytes@),
{
    let mut text = String::new();
    let mut i: usize = 0;
    while i < bytes.len()
        invariant
            i <= bytes.len(),
            text@.len() == 2 * i,
            forall|k: int| 0 <= k < 2 * i ==> text@[k] == hex_char_at(bytes@, k),
        decreases bytes.len() - i,
    {
        let byte: u8 = bytes[i];
        let ghost before = text@;
        text.append(digit_str(byte / 16));
        text.append(digit_str(byte % 16));
        proof {
            assert(text@ =~= before.push(digit_char(byte as int / 16)).push(
                digit_char(byte as int % 16),
            ));
            assert forall|k: int| 0 <= k < 2 * (i + 1) implies text@[k] == hex_char_at(
                bytes@,
                k,
            ) by {
                if k == 2 * i {
                    assert(k / 2 == i && k % 2 == 0);
                } else if k == 2 * i + 1 {
                    assert(k / 2 == i && k % 2 == 1);
                }
            }
        }
        i = i + 1;
    }
    assert(text@ =~= hex_encoding(bytes@));
    text
}

/// Fingerprints a content snapshot of a puzzle state.
///
/// Equal snapshots give equal fingerprints, and every fingerprint has the
/// same length, so fingerprints of any origin can share one visit history.
pub fn hash_state(snapshot: &[u8]) -> (fingerprint: String)
    ensures
        fingerprint@ == fingerprint_of(snapshot@),
        fingerprint@.len() == 64,
{
    let digest = sha256_digest(snapshot);
    to_hex(digest.as_slice())
}

} // verus!
