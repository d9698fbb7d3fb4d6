//! Secret bytes, which are wiped from memory when they are dropped.

use vstd::prelude::*;
use zeroize::Zeroizing;

use crate::proto::AES_256_KEY_SIZE;

verus! {

/// A 32 byte key held in a `zeroize::Zeroizing`, which overwrites it when it is dropped.
/// What it holds is named by `secret_bytes`.
#[verifier::external_body]
pub struct Secret {
    bytes: Zeroizing<[u8; AES_256_KEY_SIZE]>,
}

/// Secret bytes of any number held in a `zeroize::Zeroizing`, which overwrites them when
/// they are dropped. What it holds is named by `secret_vec_bytes`.
#[verifier::external_body]
pub struct SecretVec {
    bytes: Zeroizing<Vec<u8>>,
}

/// The bytes that a `Secret` holds.
pub uninterp spec fn secret_bytes(s: Secret) -> Seq<u8>;

/// The bytes that a `SecretVec` holds.
pub uninterp spec fn secret_vec_bytes(s: SecretVec) -> Seq<u8>;

impl View for Secret {
    type V = Seq<u8>;

    open spec fn view(&self) -> Seq<u8> {
        secret_bytes(*self)
    }
}

impl View for SecretVec {
    type V = Seq<u8>;

    open spec fn view(&self) -> Seq<u8> {
        secret_vec_bytes(*self)
    }
}

/// Calls `zeroize::Zeroizing::new` on an array, which holds the array as it is.
#[verifier::external_body]
pub(crate) fn secret_new(bytes: [u8; AES_256_KEY_SIZE]) -> (s: Secret)
    ensures
        secret_bytes(s) == bytes@,
{
    Secret { bytes: Zeroizing::new(bytes) }
}

/// Calls `zeroize::Zeroizing::deref` on an array, which gives the array that is held.
#[verifier::external_body]
pub(crate) fn secret_ref(s: &Secret) -> (r: &[u8; AES_256_KEY_SIZE])
    ensures
        r@ == secret_bytes(*s),
{
    &s.bytes
}

/// Calls `zeroize::Zeroizing::new` on a vector, which holds the vector as it is.
#[verifier::external_body]
pub(crate) fn secret_vec_new(bytes: Vec<u8>) -> (s: SecretVec)
    ensures
        secret_vec_bytes(s) == bytes@,
{
    SecretVec { bytes: Zeroizing::new(bytes) }
}

/// Calls `zeroize::Zeroizing::deref` on a vector, which gives the vector that is held.
#[verifier::external_body]
pub(crate) fn secret_vec_ref(s: &SecretVec) -> (r: &Vec<u8>)
    ensures
        r@ == secret_vec_bytes(*s),
{
    &s.bytes
}

impl Secret {
    /// Takes `bytes` as a secret.
    pub fn new(bytes: [u8; AES_256_KEY_SIZE]) -> (s: Secret)
        ensures
            s@ == bytes@,
    {
        secret_new(bytes)
    }

    /// The bytes of the secret.
    pub fn as_ref(&self) -> (r: &[u8; AES_256_KEY_SIZE])
        ensures
            r@ == self@,
    {
        secret_ref(self)
    }
}

impl SecretVec {
    /// Takes `bytes` as a secret.
    pub fn new(bytes: Vec<u8>) -> (s: SecretVec)
        ensures
            s@ == bytes@,
    {
        secret_vec_new(bytes)
    }

    /// The bytes of the secret.
    pub fn as_slice(&self) -> (r: &[u8])
        ensures
            r@ == self@,
    {
        secret_vec_ref(self).as_slice()
    }
}

impl Clone for Secret {
    fn clone(&self) -> (s: Self)
        ensures
            s@ == self@,
    {
        secret_new(*secret_ref(self))
    }
}

impl Clone for SecretVec {
    fn clone(&self) -> (s: Self)
        ensures
            s@ == self@,
    {
        secret_vec_new(vstd::slice::slice_to_vec(self.as_slice()))
    }
}

} // verus!
