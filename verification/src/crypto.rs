//! Keys, nonces and sealed packets.

use chacha20poly1305::aead::{Aead, Payload};
use chacha20poly1305::{ChaCha20Poly1305, KeyInit};
use crate::bytes::{le_bytes, le_bytes_read_back, lemma_le_bytes_len, push_le, zeros};
use hkdf::Hkdf;
use sha2::Sha512;
use vstd::prelude::*;

verus! {

/// The longest message that one nonce can seal, in bytes.
pub open spec fn max_message() -> nat {
    0x3f_ffff_ff80
}

/// ChaCha20-Poly1305: the encrypted message followed by its tag.
pub uninterp spec fn sealed(
    key: Seq<u8>,
    nonce: Seq<u8>,
    message: Seq<u8>,
    associated: Seq<u8>,
) -> Seq<u8>;

/// What `chacha20poly1305::ChaCha20Poly1305::decrypt` gives for a sealed message: the message, or
/// nothing where its tag does not fit.
pub uninterp spec fn unsealed(
    key: Seq<u8>,
    nonce: Seq<u8>,
    body: Seq<u8>,
    associated: Seq<u8>,
) -> Option<Seq<u8>>;

/// `chacha20poly1305::ChaCha20Poly1305::encrypt`. The result is a function of the key, the nonce,
/// the message and the associated data, and is the 16 bytes of the tag longer than the message.
/// Within the given length encryption does not fail, and `decrypt` with the same key, nonce and
/// associated data gives the message back. Nothing is said of what `decrypt` gives for other
/// bytes: that they are refused holds with overwhelming likelihood only.
#[verifier::external_body]
pub(crate) fn seal(
    key: &[u8; 32],
    nonce: &[u8; 12],
    message: &[u8],
    associated: &[u8],
) -> (r: Option<Vec<u8>>)
    requires
        message@.len() <= max_message(),
    ensures
        r is Some,
        r->0@ == sealed(key@, nonce@, message@, associated@),
        r->0@.len() == message@.len() + 16,
        unsealed(key@, nonce@, r->0@, associated@) == Some(message@),
{
    let payload = Payload { msg: message, aad: associated };
    ChaCha20Poly1305::new(key.into()).encrypt(nonce.into(), payload).ok()
}

/// HKDF with SHA-512: 32 bytes derived from a secret, a salt and a purpose.
pub uninterp spec fn derived(secret: Seq<u8>, salt: Seq<u8>, info: Seq<u8>) -> Seq<u8>;

/// `hkdf::Hkdf::<sha2::Sha512>::new` and `expand`. The result is a function of the secret, the
/// salt and the purpose; 32 bytes are always within what can be expanded.
#[verifier::external_body]
fn hkdf_sha512(secret: &[u8], salt: &[u8], info: &[u8]) -> (r: [u8; 32])
    ensures
        r@ == derived(secret@, salt@, info@),
{
    let mut key = [0; 32];
    Hkdf::<Sha512>::new(Some(salt), secret).expand(info, &mut key).expect("32 byte HKDF output");
    key
}

/// A 32-byte key for the given purpose.
pub fn derive_key(secret: &[u8], salt: &[u8], info: &[u8]) -> (r: [u8; 32])
    ensures
        r@ == derived(secret@, salt@, info@),
{
    hkdf_sha512(secret, salt, info)
}

/// The nonce of packet number `counter`: four zero bytes and the number, least significant byte
/// first.
pub open spec fn nonce_of(counter: nat) -> Seq<u8> {
    zeros(4) + le_bytes(counter, 8)
}

pub fn nonce(counter: u64) -> (r: [u8; 12])
    ensures
        r@ == nonce_of(counter as nat),
{
    let mut low: Vec<u8> = Vec::new();
    push_le(&mut low, counter, 8);
    proof {
        lemma_le_bytes_len(counter as nat, 8);
        assert(low@ =~= le_bytes(counter as nat, 8));
    }
    let r: [u8; 12] = [
        0,
        0,
        0,
        0,
        low[0],
        low[1],
        low[2],
        low[3],
        low[4],
        low[5],
        low[6],
        low[7],
    ];
    assert(r@ =~= nonce_of(counter as nat));
    r
}

/// No two packet numbers share a nonce.
pub proof fn nonces_are_distinct(a: u64, b: u64)
    requires
        a != b,
    ensures
        nonce_of(a as nat) != nonce_of(b as nat),
{
    reveal_with_fuel(crate::bytes::byte_range, 9);
    le_bytes_read_back(a as nat, 8);
    le_bytes_read_back(b as nat, 8);
    lemma_le_bytes_len(a as nat, 8);
    lemma_le_bytes_len(b as nat, 8);
    assert(nonce_of(a as nat).skip(4) == le_bytes(a as nat, 8));
    assert(nonce_of(b as nat).skip(4) == le_bytes(b as nat, 8));
}

} // verus!
