//! Symmetric authenticated encryption of byte payloads.
//!
//! A frame body is `nonce || ciphertext`, where the nonce is 12 fresh random
//! bytes and the ciphertext (which includes a 16-byte authentication tag) is
//! produced by an AEAD cipher under the process-wide 32-byte key.

use vstd::prelude::*;

use crate::bytes::{copy_range, push_all};
use chacha20poly1305::aead::{Aead, AeadCore, KeyInit, OsRng};
use chacha20poly1305::{ChaCha20Poly1305, Key, Nonce};

verus! {

/// Number of bytes in the symmetric key.
pub const KEY_LEN: usize = 32;

/// The ciphertext (tag included) that the AEAD cipher produces for the given
/// key, nonce and plaintext. It depends on those three arguments alone.
pub uninterp spec fn sealed_of(key: Seq<u8>, nonce: Seq<u8>, plaintext: Seq<u8>) -> Seq<u8>;

/// Relies on chacha20poly1305's `KeyInit::generate_key` with `OsRng`: returns a
/// freshly drawn 32-byte key. Nothing further can be said of a random value.
#[verifier::external_body]
pub fn fresh_key() -> (r: Vec<u8>)
    ensures
        r@.len() == 32,
{
    ChaCha20Poly1305::generate_key(&mut OsRng).to_vec()
}

/// Relies on chacha20poly1305's `AeadCore::generate_nonce` with `OsRng`: returns
/// a freshly drawn 12-byte nonce. Nothing further can be said of a random value.
#[verifier::external_body]
fn fresh_nonce() -> (r: Vec<u8>)
    ensures
        r@.len() == 12,
{
    ChaCha20Poly1305::generate_nonce(&mut OsRng).to_vec()
}

/// Relies on chacha20poly1305's `Aead::encrypt`: deterministic in key, nonce and
/// plaintext; appends a 16-byte tag; fails only on plaintexts of many gibibytes,
/// which the precondition rules out.
#[verifier::external_body]
fn aead_seal(key: &Vec<u8>, nonce: &Vec<u8>, plaintext: &Vec<u8>) -> (r: Vec<u8>)
    requires
        key@.len() == 32,
        nonce@.len() == 12,
        plaintext@.len() <= 0x4000_0000,
    ensures
        r@ == sealed_of(key@, nonce@, plaintext@),
        r@.len() == plaintext@.len() + 16,
{
    let cipher = ChaCha20Poly1305::new(Key::from_slice(key.as_slice()));
    cipher.encrypt(Nonce::from_slice(nonce.as_slice()), plaintext.as_slice()).unwrap()
}

/// The result `r` of opening `ciphertext` under `key` and `nonce` is faithful:
/// whenever the ciphertext was sealed from some plaintext under the same key
/// and nonce, `r` is exactly that plaintext.
pub open spec fn opened_faithfully(
    key: Seq<u8>,
    nonce: Seq<u8>,
    ciphertext: Seq<u8>,
    r: Option<Vec<u8>>,
) -> bool {
    forall|pt: Seq<u8>|
        ciphertext == #[trigger] sealed_of(key, nonce, pt) ==> (r matches Some(p) && p@ == pt)
}

/// Relies on chacha20poly1305's `Aead::decrypt`: deterministic; verifies the
/// postfix 16-byte tag and, for a ciphertext sealed under the same key and
/// nonce, returns exactly the sealed plaintext (the RFC 8439 round trip that
/// chacha20poly1305's own documentation shows); on success the tag is
/// stripped.
#[verifier::external_body]
fn aead_open(key: &Vec<u8>, nonce: &Vec<u8>, ciphertext: &Vec<u8>) -> (r: Option<Vec<u8>>)
    requires
        key@.len() == 32,
        nonce@.len() == 12,
    ensures
        opened_faithfully(key@, nonce@, ciphertext@, r),
        r matches Some(p) ==> p@.len() + 16 == ciphertext@.len(),
{
    let cipher = ChaCha20Poly1305::new(Key::from_slice(key.as_slice()));
    match cipher.decrypt(Nonce::from_slice(nonce.as_slice()), ciphertext.as_slice()) {
        Ok(p) => Some(p),
        Err(_) => None,
    }
}

/// Why decryption of a frame body can fail: the body is too short to hold a
/// nonce, or the authentication tag does not verify (tampering, corruption or
/// a wrong key are indistinguishable by design).
#[derive(Clone, Copy, Debug, PartialEq, Eq, Structural)]
pub enum CipherError {
    MalformedFrame,
    CryptoError,
}

/// The frame body `body` opens under `key` to the plaintext `pt`: it is long
/// enough to carry a nonce, and the rest is `pt` sealed under that nonce.
pub open spec fn opens_to(key: Seq<u8>, body: Seq<u8>, pt: Seq<u8>) -> bool {
    body.len() >= 12 && body.skip(12) == sealed_of(key, body.take(12), pt)
}

/// Encrypt `plaintext` under `key`: draw a fresh 12-byte nonce, seal the
/// plaintext, and return `nonce || ciphertext`. The result is 28 bytes longer
/// than the plaintext (nonce plus tag) and opens back to the plaintext.
pub fn encrypt(plaintext: &Vec<u8>, key: &Vec<u8>) -> (r: Vec<u8>)
    requires
        key@.len() == 32,
        plaintext@.len() <= 0x4000_0000,
    ensures
        r@.len() == plaintext@.len() + 28,
        exists|n: Seq<u8>|
            n.len() == 12 && r@ == n + #[trigger] sealed_of(key@, n, plaintext@),
        opens_to(key@, r@, plaintext@),
{
    let nonce = fresh_nonce();
    let ct = aead_seal(key, &nonce, plaintext);
    let mut out = copy_range(&nonce, 0, nonce.len());
    push_all(&mut out, &ct);
    proof {
        assert(nonce@.subrange(0, 12) =~= nonce@);
        assert(out@ == nonce@ + sealed_of(key@, nonce@, plaintext@));
        assert(out@.take(12) =~= nonce@);
        assert(out@.skip(12) =~= sealed_of(key@, nonce@, plaintext@));
    }
    out
}

/// Decrypt a frame body under `key`. A body shorter than a nonce is rejected as
/// `MalformedFrame`; otherwise the first 12 bytes are the nonce and the rest is
/// handed to the AEAD cipher, whose tag failure is reported as `CryptoError`.
/// Any body that a successful encryption under `key` produced opens back to the
/// encrypted plaintext.
pub fn decrypt(body: &Vec<u8>, key: &Vec<u8>) -> (r: Result<Vec<u8>, CipherError>)
    requires
        key@.len() == 32,
    ensures
        body@.len() < 12 ==> r == Err::<Vec<u8>, CipherError>(CipherError::MalformedFrame),
        forall|pt: Seq<u8>| #[trigger]
            opens_to(key@, body@, pt) ==> (r matches Ok(p) && p@ == pt),
        r matches Ok(p) ==> body@.len() >= 12 && p@.len() + 28 == body@.len(),
        body@.len() >= 12 ==> (r matches Err(e) ==> e == CipherError::CryptoError),
{
    if body.len() < 12 {
        return Err(CipherError::MalformedFrame);
    }
    let nonce = copy_range(body, 0, 12);
    let ct = copy_range(body, 12, body.len());
    proof {
        assert(nonce@ =~= body@.take(12));
        assert(ct@ =~= body@.skip(12));
    }
    match aead_open(key, &nonce, &ct) {
        Some(p) => {
            proof {
                assert forall|pt: Seq<u8>| #[trigger] opens_to(key@, body@, pt) implies p@
                    == pt by {
                    assert(ct@ == sealed_of(key@, nonce@, pt));
                }
            }
            Ok(p)
        },
        None => {
            proof {
                assert forall|pt: Seq<u8>| !(#[trigger] opens_to(key@, body@, pt)) by {
                    if opens_to(key@, body@, pt) {
                        assert(ct@ == sealed_of(key@, nonce@, pt));
                    }
                }
            }
            Err(CipherError::CryptoError)
        },
    }
}

/// Round trip: a frame body assembled from any 12-byte nonce and a plaintext
/// sealed under that nonce opens back to exactly that plaintext, so decryption
/// of an encryption returns the original payload.
pub proof fn lemma_encrypt_decrypt_round_trip(key: Seq<u8>, nonce: Seq<u8>, pt: Seq<u8>)
    requires
        nonce.len() == 12,
    ensures
        opens_to(key, nonce + sealed_of(key, nonce, pt), pt),
{
    let body = nonce + sealed_of(key, nonce, pt);
    assert(body.take(12) =~= nonce);
    assert(body.skip(12) =~= sealed_of(key, nonce, pt));
}

/// Two encryptions of the same plaintext under the same key that drew different
/// nonces produce different frame bodies: the bodies already differ in their
/// first 12 bytes.
pub proof fn lemma_distinct_nonces_distinct_bodies(
    key: Seq<u8>,
    n1: Seq<u8>,
    n2: Seq<u8>,
    pt: Seq<u8>,
)
    requires
        n1.len() == 12,
        n2.len() == 12,
        n1 != n2,
    ensures
        n1 + sealed_of(key, n1, pt) != n2 + sealed_of(key, n2, pt),
{
    let b1 = n1 + sealed_of(key, n1, pt);
    let b2 = n2 + sealed_of(key, n2, pt);
    assert(b1.take(12) =~= n1);
    assert(b2.take(12) =~= n2);
    if b1 == b2 {
        assert(n1 =~= n2);
    }
}

} // verus!
