//! The Kyber key encapsulation that the handshake mixes in.

use rand_core::OsRng;
use vstd::prelude::*;

use crate::proto::{
    KYBER_CIPHERTEXTBYTES, KYBER_PUBLICKEYBYTES, KYBER_SECRETKEYBYTES, KYBER_SSBYTES,
};
use crate::secret::{Secret, SecretVec};

verus! {

/// A fresh Kyber key pair.
pub struct KyberKeypair {
    pub public: Vec<u8>,
    pub secret: SecretVec,
}

/// The public and the secret key that `pqc_kyber::keypair` makes of the two seeds that it draws.
pub uninterp spec fn kyber_pair(seed: Seq<u8>, z: Seq<u8>) -> (Seq<u8>, Seq<u8>);

/// The ciphertext and the secret that `pqc_kyber::encapsulate` makes of a public key and of the
/// coins that it draws.
pub uninterp spec fn kyber_encapsulated(pk: Seq<u8>, coins: Seq<u8>) -> (Seq<u8>, Seq<u8>);

/// The shared secret that `pqc_kyber::decapsulate` obtains from a ciphertext and a secret
/// key, or `None` where it returns an error.
pub uninterp spec fn kyber_decapsulated(ct: Seq<u8>, sk: Seq<u8>) -> Option<Seq<u8>>;

/// `public` and `secret` are the two keys of one Kyber key pair.
pub open spec fn is_kyber_pair(public: Seq<u8>, secret: Seq<u8>) -> bool {
    exists|seed: Seq<u8>, z: Seq<u8>| (public, secret) == #[trigger] kyber_pair(seed, z)
}

/// `ct` carries the secret `ss` to the holder of the Kyber key `pk`.
pub open spec fn is_encapsulation(pk: Seq<u8>, ct: Seq<u8>, ss: Seq<u8>) -> bool {
    exists|coins: Seq<u8>| (ct, ss) == #[trigger] kyber_encapsulated(pk, coins)
}

/// Calls `pqc_kyber::keypair`. It draws two seeds and computes both keys from them; the result for
/// given seeds is named `kyber_pair`. Which seeds are drawn is up to the random numbers that the
/// system yields; the contract says what holds of all of them: the two keys are of one pair, and
/// their sizes.
#[verifier::external_body]
fn kyber_keypair_bytes(rng: &mut OsRng) -> (r: (Vec<u8>, Vec<u8>))
    ensures
        r.0@.len() == KYBER_PUBLICKEYBYTES,
        r.1@.len() == KYBER_SECRETKEYBYTES,
        exists|seed: Seq<u8>, z: Seq<u8>| (r.0@, r.1@) == #[trigger] kyber_pair(seed, z),
{
    let pair = pqc_kyber::keypair(rng);
    (pair.public.to_vec(), pair.secret.to_vec())
}

/// Calls `pqc_kyber::encapsulate`, which refuses a public key of another size and nothing
/// else. It draws coins and computes the ciphertext and the secret from them and from the key;
/// the result for given coins is named `kyber_encapsulated`. Which coins are drawn is up to the
/// random numbers that the system yields; the contract says what holds of all of them: ciphertext
/// and secret are for this key, and the size of the ciphertext.
#[verifier::external_body]
fn kyber_encapsulate_bytes(pk: &[u8], rng: &mut OsRng) -> (r: Option<
    (Vec<u8>, [u8; KYBER_SSBYTES]),
>)
    ensures
        r is Some <==> pk@.len() == KYBER_PUBLICKEYBYTES,
        r matches Some(e) ==> e.0@.len() == KYBER_CIPHERTEXTBYTES,
        r matches Some(e) ==> exists|coins: Seq<u8>|
            (e.0@, e.1@) == #[trigger] kyber_encapsulated(pk@, coins),
{
    match pqc_kyber::encapsulate(pk, rng) {
        Ok((ct, ss)) => Some((ct.to_vec(), ss)),
        Err(_) => None,
    }
}

/// Calls `pqc_kyber::decapsulate`. It computes on its arguments alone; its result is named
/// `kyber_decapsulated`. It refuses a ciphertext or a secret key of another size.
#[verifier::external_body]
fn kyber_decapsulate_bytes(ct: &[u8], sk: &[u8]) -> (r: Option<[u8; KYBER_SSBYTES]>)
    ensures
        (match r {
            Some(ss) => Some(ss@),
            None => None,
        }) == kyber_decapsulated(ct@, sk@),
        r is Some ==> ct@.len() == KYBER_CIPHERTEXTBYTES && sk@.len() == KYBER_SECRETKEYBYTES,
{
    match pqc_kyber::decapsulate(ct, sk) {
        Ok(ss) => Some(ss),
        Err(_) => None,
    }
}

/// Draws a Kyber key pair.
pub fn kyber_keypair(rng: &mut OsRng) -> (r: KyberKeypair)
    ensures
        r.public@.len() == KYBER_PUBLICKEYBYTES,
        r.secret@.len() == KYBER_SECRETKEYBYTES,
        is_kyber_pair(r.public@, r.secret@),
{
    let (public, secret) = kyber_keypair_bytes(rng);
    KyberKeypair { public, secret: SecretVec::new(secret) }
}

/// Draws a secret for the holder of `pk`: the ciphertext to send, and the secret.
pub fn kyber_encapsulate(pk: &[u8], rng: &mut OsRng) -> (r: Option<
    (Vec<u8>, Secret),
>)
    ensures
        r is Some <==> pk@.len() == KYBER_PUBLICKEYBYTES,
        r matches Some(e) ==> e.0@.len() == KYBER_CIPHERTEXTBYTES && is_encapsulation(
            pk@,
            e.0@,
            e.1@,
        ),
{
    match kyber_encapsulate_bytes(pk, rng) {
        Some((ct, ss)) => Some((ct, Secret::new(ss))),
        None => None,
    }
}

/// The secret that the ciphertext `ct` carries to the holder of `sk`.
pub fn kyber_decapsulate(ct: &[u8], sk: &SecretVec) -> (r: Option<Secret>)
    ensures
        r is Some <==> kyber_decapsulated(ct@, sk@) is Some,
        r is Some ==> Some(r->0@) == kyber_decapsulated(ct@, sk@),
{
    match kyber_decapsulate_bytes(ct, sk.as_slice()) {
        Some(ss) => Some(Secret::new(ss)),
        None => None,
    }
}

} // verus!
