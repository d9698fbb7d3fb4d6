//! The primitives that an application supplies, and comparisons of secrets.
//!
//! Each trait names what its functions compute by specification functions of their own;
//! the rest of the library speaks of results through these names only. Nothing is known of
//! a name but what the functions of the trait say of it; an application in plain Rust leaves the
//! names as they are.

use rand_core::OsRng;
use vstd::prelude::*;

use crate::proto::{
    AES_256_KEY_SIZE, AES_BLOCK_SIZE, AES_GCM_IV_SIZE, AES_GCM_TAG_SIZE, HASH_SIZE,
    P384_PUBLIC_KEY_SIZE, RATCHET_SIZE,
};
use crate::secret::SecretVec;

verus! {

/// A NIST P-384 public key.
pub trait P384PublicKey: Sized {
    /// The encoding of the key.
    closed spec fn encoded(&self) -> Seq<u8> {
        arbitrary()
    }

    /// The key with this encoding, where there is one.
    closed spec fn decoded(bytes: Seq<u8>) -> Option<Self> {
        arbitrary()
    }

    fn from_bytes(bytes: &[u8; P384_PUBLIC_KEY_SIZE]) -> (r: Option<Self>)
        ensures
            r == Self::decoded(bytes@),
    ;

    fn to_bytes(&self) -> (r: [u8; P384_PUBLIC_KEY_SIZE])
        ensures
            r@ == self.encoded(),
    ;
}

/// A NIST P-384 key pair.
pub trait P384KeyPair: Sized {
    type PublicKey: P384PublicKey;

    /// The encoding of the public key of the pair.
    closed spec fn public_encoded(&self) -> Seq<u8> {
        arbitrary()
    }

    /// The secret that this pair shares with the holder of `remote`, where there is one.
    closed spec fn shared(&self, remote: Self::PublicKey) -> Option<Seq<u8>> {
        arbitrary()
    }

    /// The pair may be one that is drawn.
    closed spec fn may_generate(&self) -> bool {
        arbitrary()
    }

    fn generate(rng: &mut OsRng) -> (r: Self)
        ensures
            r.may_generate(),
    ;

    fn public_key_bytes(&self) -> (r: [u8; P384_PUBLIC_KEY_SIZE])
        ensures
            r@ == self.public_encoded(),
    ;

    fn agree(&self, remote: &Self::PublicKey) -> (r: Option<SecretVec>)
        ensures
            r is Some <==> self.shared(*remote) is Some,
            r is Some ==> Some(r->0@) == self.shared(*remote),
    ;
}

/// AES-256-GCM, working in place.
pub trait AesGcmAead: Sized {
    /// The ciphertext of `plain`, which is as long as `plain`.
    closed spec fn sealed(key: Seq<u8>, nonce: Seq<u8>, aad: Seq<u8>, plain: Seq<u8>) -> Seq<u8> {
        arbitrary()
    }

    /// The tag that authenticates the ciphertext of `plain`.
    closed spec fn tag(key: Seq<u8>, nonce: Seq<u8>, aad: Seq<u8>, plain: Seq<u8>) -> Seq<u8> {
        arbitrary()
    }

    /// The plaintext of `cipher`, where `tag` authenticates it.
    closed spec fn opened(
        key: Seq<u8>,
        nonce: Seq<u8>,
        aad: Seq<u8>,
        cipher: Seq<u8>,
        tag: Seq<u8>,
    ) -> Option<Seq<u8>> {
        arbitrary()
    }

    fn encrypt_in_place(
        key: &[u8; AES_256_KEY_SIZE],
        nonce: &[u8; AES_GCM_IV_SIZE],
        aad: &[u8],
        data: &mut Vec<u8>,
    ) -> (tag: [u8; AES_GCM_TAG_SIZE])
        ensures
            final(data)@ == Self::sealed(key@, nonce@, aad@, old(data)@),
            final(data)@.len() == old(data)@.len(),
            tag@ == Self::tag(key@, nonce@, aad@, old(data)@),
    ;

    fn decrypt_in_place(
        key: &[u8; AES_256_KEY_SIZE],
        nonce: &[u8; AES_GCM_IV_SIZE],
        aad: &[u8],
        data: &mut Vec<u8>,
        tag: &[u8; AES_GCM_TAG_SIZE],
    ) -> (ok: bool)
        ensures
            ok <==> Self::opened(key@, nonce@, aad@, old(data)@, tag@) is Some,
            ok ==> Some(final(data)@) == Self::opened(key@, nonce@, aad@, old(data)@, tag@),
            final(data)@.len() == old(data)@.len(),
    ;
}

/// AES-256 on single blocks, which protects headers.
pub trait Aes256Prp: Sized {
    closed spec fn block_encrypted(key: Seq<u8>, block: Seq<u8>) -> Seq<u8> {
        arbitrary()
    }

    closed spec fn block_decrypted(key: Seq<u8>, block: Seq<u8>) -> Seq<u8> {
        arbitrary()
    }

    fn encrypt_in_place(key: &[u8; AES_256_KEY_SIZE], block: &mut [u8; AES_BLOCK_SIZE])
        ensures
            final(block)@ == Self::block_encrypted(key@, old(block)@),
    ;

    fn decrypt_in_place(key: &[u8; AES_256_KEY_SIZE], block: &mut [u8; AES_BLOCK_SIZE])
        ensures
            final(block)@ == Self::block_decrypted(key@, old(block)@),
    ;
}

/// SHA-512 and HMAC-SHA-512.
pub trait HashSha512: Sized {
    closed spec fn digest(data: Seq<u8>) -> Seq<u8> {
        arbitrary()
    }

    closed spec fn mac(key: Seq<u8>, data: Seq<u8>) -> Seq<u8> {
        arbitrary()
    }

    fn hash(data: &[u8]) -> (r: [u8; HASH_SIZE])
        ensures
            r@ == Self::digest(data@),
    ;

    fn hmac(key: &[u8], data: &[u8]) -> (r: [u8; HASH_SIZE])
        ensures
            r@ == Self::mac(key@, data@),
    ;
}

/// Says whether two secrets are equal. Every byte is looked at, whatever the bytes before
/// it were.
pub fn secure_eq(a: &[u8; RATCHET_SIZE], b: &[u8; RATCHET_SIZE]) -> (r: bool)
    ensures
        r <==> a@ == b@,
{
    let mut diff: u8 = 0;
    let mut i: usize = 0;
    while i < RATCHET_SIZE
        invariant
            i <= RATCHET_SIZE,
            diff == 0 <==> (forall|j: int| 0 <= j < i ==> a@[j] == b@[j]),
        decreases RATCHET_SIZE - i,
    {
        let x: u8 = a[i];
        let y: u8 = b[i];
        assert(diff | (x ^ y) == 0 <==> diff == 0 && x == y) by (bit_vector);
        diff = diff | (x ^ y);
        i += 1;
    }
    proof {
        if diff == 0 {
            assert(a@ =~= b@);
        }
    }
    diff == 0
}

} // verus!
