//! The symmetric state of a Noise handshake: a chaining key, a transcript hash and a
//! cipher key.

use vstd::prelude::*;

use crate::application::ApplicationLayer;
use crate::bytes::{append, array_at, part};
use crate::crypto::{AesGcmAead, HashSha512, P384KeyPair, P384PublicKey};
use crate::proto::{
    AES_256_KEY_SIZE, AES_GCM_IV_SIZE, AES_GCM_TAG_SIZE, HASH_SIZE, LABEL_KBKDF_CHAIN,
    P384_PUBLIC_KEY_SIZE,
};
use crate::result::ZetaError;
use crate::secret::{Secret, SecretVec};
use rand_core::OsRng;

verus! {

/// What a symmetric state holds.
#[verifier::ext_equal]
pub struct Noise {
    pub ck: Seq<u8>,
    pub h: Seq<u8>,
    pub k: Seq<u8>,
}

/// One block of key material: HMAC in counter mode over a label and a context.
pub open spec fn kdf_block<App: ApplicationLayer>(
    key: Seq<u8>,
    i: u8,
    label: Seq<u8>,
    context: Seq<u8>,
    outputs: u8,
) -> Seq<u8> {
    App::Hash::mac(
        key,
        seq![i] + label + seq![0u8] + context + seq![(2 * outputs) as u8, 0u8],
    )
}

/// One key of key material.
pub open spec fn kdf_key<App: ApplicationLayer>(
    key: Seq<u8>,
    i: u8,
    label: Seq<u8>,
    context: Seq<u8>,
    outputs: u8,
) -> Seq<u8> {
    kdf_block::<App>(key, i, label, context, outputs).subrange(0, AES_256_KEY_SIZE as int)
}

impl Noise {
    /// The state that a handshake starts in.
    pub open spec fn initial(h: Seq<u8>) -> Noise {
        Noise { ck: h, h, k: Seq::new(AES_256_KEY_SIZE as nat, |i: int| 0u8) }
    }

    /// The state in which `data` has been added to the transcript.
    pub open spec fn mix_hash<App: ApplicationLayer>(self, data: Seq<u8>) -> Noise {
        Noise { h: App::Hash::digest(self.h + data), ..self }
    }

    /// The state in which `material` has been added to the keys.
    pub open spec fn mix_key<App: ApplicationLayer>(self, material: Seq<u8>) -> Noise {
        Noise {
            ck: kdf_block::<App>(self.ck, 1, LABEL_KBKDF_CHAIN@, material, 2),
            k: kdf_key::<App>(self.ck, 2, LABEL_KBKDF_CHAIN@, material, 2),
            ..self
        }
    }

    /// The state in which `material` has been added to the keys and to the transcript.
    pub open spec fn mix_key_and_hash<App: ApplicationLayer>(self, material: Seq<u8>) -> Noise {
        Noise {
            ck: kdf_block::<App>(self.ck, 1, LABEL_KBKDF_CHAIN@, material, 3),
            h: App::Hash::digest(
                self.h + kdf_block::<App>(self.ck, 2, LABEL_KBKDF_CHAIN@, material, 3),
            ),
            k: kdf_key::<App>(self.ck, 3, LABEL_KBKDF_CHAIN@, material, 3),
        }
    }

    /// The ciphertext and tag of `plain`, bound to the transcript.
    pub open spec fn sealed<App: ApplicationLayer>(self, nonce: Seq<u8>, plain: Seq<u8>) -> Seq<
        u8,
    > {
        App::Aead::sealed(self.k, nonce, self.h, plain) + App::Aead::tag(
            self.k,
            nonce,
            self.h,
            plain,
        )
    }

    /// The plaintext of `cipher`, where `tag` authenticates it and the transcript.
    pub open spec fn opened<App: ApplicationLayer>(
        self,
        nonce: Seq<u8>,
        cipher: Seq<u8>,
        tag: Seq<u8>,
    ) -> Option<Seq<u8>> {
        App::Aead::opened(self.k, nonce, self.h, cipher, tag)
    }

    /// Two keys for the purpose that `label` names.
    pub open spec fn ask<App: ApplicationLayer>(self, label: Seq<u8>) -> (Seq<u8>, Seq<u8>) {
        (
            kdf_key::<App>(self.ck, 1, label, self.h, 2),
            kdf_key::<App>(self.ck, 2, label, self.h, 2),
        )
    }

    /// The two keys that a handshake ends with.
    pub open spec fn split<App: ApplicationLayer>(self) -> (Seq<u8>, Seq<u8>) {
        (
            kdf_key::<App>(self.ck, 1, LABEL_KBKDF_CHAIN@, seq![], 2),
            kdf_key::<App>(self.ck, 2, LABEL_KBKDF_CHAIN@, seq![], 2),
        )
    }

    /// The state in which an ephemeral public key has been sent or received.
    pub open spec fn mix_e<App: ApplicationLayer>(self, public: Seq<u8>) -> Noise {
        self.mix_hash::<App>(public).mix_key::<App>(public)
    }

    /// The state in which an ephemeral public key has been written, and the packet with the key at
    /// its end.
    pub open spec fn e_written<App: ApplicationLayer>(self, packet: Seq<u8>, public: Seq<u8>) -> (
        Noise,
        Seq<u8>,
    ) {
        (self.mix_e::<App>(public), packet + public)
    }

    /// The state in which the ephemeral public key at `i` of a packet has been read, and the key,
    /// where there is one with this encoding.
    pub open spec fn e_read<App: ApplicationLayer>(self, i: int, packet: Seq<u8>) -> (
        Noise,
        Option<App::PublicKey>,
    ) {
        let public = packet.subrange(i, i + P384_PUBLIC_KEY_SIZE);
        (self.mix_e::<App>(public), App::PublicKey::decoded(public))
    }
}

/// The symmetric state of a handshake.
pub struct SymmetricState<App: ApplicationLayer> {
    pub k: Secret,
    pub ck: SecretVec,
    pub h: [u8; HASH_SIZE],
    pub app: std::marker::PhantomData<App>,
}

impl<App: ApplicationLayer> View for SymmetricState<App> {
    type V = Noise;

    open spec fn view(&self) -> Noise {
        Noise { ck: self.ck@, h: self.h@, k: self.k@ }
    }
}

/// One block of key material.
fn kdf<App: ApplicationLayer>(
    key: &[u8],
    i: u8,
    label: &[u8; 4],
    context: &[u8],
    outputs: u8,
) -> (r: SecretVec)
    requires
        outputs <= 3,
    ensures
        r@ == kdf_block::<App>(key@, i, label@, context@, outputs),
        r@.len() == HASH_SIZE,
{
    let mut buffer: Vec<u8> = Vec::new();
    buffer.push(i);
    append(&mut buffer, label);
    buffer.push(0);
    append(&mut buffer, context);
    buffer.push(2 * outputs);
    buffer.push(0);
    assert(buffer@ =~= seq![i] + label@ + seq![0u8] + context@ + seq![(2 * outputs) as u8, 0u8]);
    let block = App::Hash::hmac(key, buffer.as_slice());
    SecretVec::new(vstd::slice::slice_to_vec(block.as_slice()))
}

/// The key at the start of a block of key material.
fn block_key(block: &SecretVec) -> (r: Secret)
    requires
        block@.len() == HASH_SIZE,
    ensures
        r@ == block@.subrange(0, AES_256_KEY_SIZE as int),
{
    Secret::new(array_at::<AES_256_KEY_SIZE>(block.as_slice(), 0))
}

impl<App: ApplicationLayer> SymmetricState<App> {
    /// The state that a handshake starts in.
    pub fn initialize(h: [u8; HASH_SIZE]) -> (r: Self)
        ensures
            r@ == Noise::initial(h@),
    {
        let r = SymmetricState {
            k: Secret::new([0u8; AES_256_KEY_SIZE]),
            ck: SecretVec::new(vstd::slice::slice_to_vec(h.as_slice())),
            h,
            app: std::marker::PhantomData,
        };
        assert(r@.k =~= Noise::initial(h@).k);
        r
    }

    /// Adds `data` to the transcript.
    pub fn mix_hash(&mut self, data: &[u8])
        ensures
            final(self)@ == old(self)@.mix_hash::<App>(data@),
    {
        let mut buffer = vstd::slice::slice_to_vec(self.h.as_slice());
        append(&mut buffer, data);
        self.h = App::Hash::hash(buffer.as_slice());
    }

    /// Adds `material` to the keys.
    pub fn mix_key(&mut self, material: &[u8])
        ensures
            final(self)@ == old(self)@.mix_key::<App>(material@),
    {
        let next_ck = kdf::<App>(self.ck.as_slice(), 1, &LABEL_KBKDF_CHAIN, material, 2);
        let next_k = kdf::<App>(self.ck.as_slice(), 2, &LABEL_KBKDF_CHAIN, material, 2);
        self.ck = next_ck;
        self.k = block_key(&next_k);
    }

    /// Adds `material` to the keys and to the transcript.
    pub fn mix_key_and_hash(&mut self, material: &[u8])
        ensures
            final(self)@ == old(self)@.mix_key_and_hash::<App>(material@),
    {
        let next_ck = kdf::<App>(self.ck.as_slice(), 1, &LABEL_KBKDF_CHAIN, material, 3);
        let next_h = kdf::<App>(self.ck.as_slice(), 2, &LABEL_KBKDF_CHAIN, material, 3);
        let next_k = kdf::<App>(self.ck.as_slice(), 3, &LABEL_KBKDF_CHAIN, material, 3);
        self.ck = next_ck;
        self.mix_hash(next_h.as_slice());
        self.k = block_key(&next_k);
    }

    /// Encrypts what `packet` holds from `i` on, appends the tag, and adds both to the
    /// transcript.
    pub fn encrypt_and_hash(
        &mut self,
        nonce: [u8; AES_GCM_IV_SIZE],
        i: usize,
        packet: &mut Vec<u8>,
    )
        requires
            i <= old(packet)@.len(),
        ensures
            ({
                let sealed = old(self)@.sealed::<App>(
                    nonce@,
                    old(packet)@.subrange(i as int, old(packet)@.len() as int),
                );
                &&& final(packet)@ == old(packet)@.subrange(0, i as int) + sealed
                &&& final(self)@ == old(self)@.mix_hash::<App>(sealed)
                &&& final(packet)@.len() == old(packet)@.len() + AES_GCM_TAG_SIZE
            }),
    {
        let mut data = part(packet.as_slice(), i, packet.len());
        let tag = App::Aead::encrypt_in_place(
            self.k.as_ref(),
            &nonce,
            self.h.as_slice(),
            &mut data,
        );
        append(&mut data, tag.as_slice());
        self.mix_hash(data.as_slice());
        packet.truncate(i);
        append(packet, data.as_slice());
    }

    /// Decrypts `data` where `tag` authenticates it, and adds both to the transcript. Where it
    /// does not, the state stays as it was.
    pub fn decrypt_and_hash(
        &mut self,
        nonce: [u8; AES_GCM_IV_SIZE],
        data: &mut Vec<u8>,
        tag: [u8; AES_GCM_TAG_SIZE],
    ) -> (ok: bool)
        ensures
            ok <==> old(self)@.opened::<App>(nonce@, old(data)@, tag@) is Some,
            ok ==> Some(final(data)@) == old(self)@.opened::<App>(nonce@, old(data)@, tag@),
            ok ==> final(self)@ == old(self)@.mix_hash::<App>(old(data)@ + tag@),
            !ok ==> final(self)@ == old(self)@,
            final(data)@.len() == old(data)@.len(),
    {
        let mut seen = vstd::slice::slice_to_vec(data.as_slice());
        append(&mut seen, tag.as_slice());
        if App::Aead::decrypt_in_place(self.k.as_ref(), &nonce, self.h.as_slice(), data, &tag) {
            self.mix_hash(seen.as_slice());
            true
        } else {
            false
        }
    }

    /// Two keys for the purpose that `label` names.
    pub fn get_ask(&self, label: [u8; 4]) -> (r: (Secret, Secret))
        ensures
            (r.0@, r.1@) == self@.ask::<App>(label@),
    {
        let first = kdf::<App>(self.ck.as_slice(), 1, &label, self.h.as_slice(), 2);
        let second = kdf::<App>(self.ck.as_slice(), 2, &label, self.h.as_slice(), 2);
        (block_key(&first), block_key(&second))
    }

    /// The two keys that a handshake ends with.
    pub fn split(&self) -> (r: (Secret, Secret))
        ensures
            (r.0@, r.1@) == self@.split::<App>(),
    {
        let none: [u8; 0] = [];
        let first = kdf::<App>(self.ck.as_slice(), 1, &LABEL_KBKDF_CHAIN, none.as_slice(), 2);
        let second = kdf::<App>(self.ck.as_slice(), 2, &LABEL_KBKDF_CHAIN, none.as_slice(), 2);
        assert(none@ =~= seq![]);
        (block_key(&first), block_key(&second))
    }

    /// Appends the ephemeral public key of `e_secret` to `packet` and adds it to the state.
    pub fn put_e(&mut self, e_secret: &App::KeyPair, packet: &mut Vec<u8>)
        ensures
            final(packet)@ == old(packet)@ + e_secret.public_encoded(),
            final(packet)@.len() == old(packet)@.len() + P384_PUBLIC_KEY_SIZE,
            final(self)@ == old(self)@.mix_e::<App>(e_secret.public_encoded()),
    {
        let pub_key = e_secret.public_key_bytes();
        append(packet, pub_key.as_slice());
        self.mix_hash(pub_key.as_slice());
        self.mix_key(pub_key.as_slice());
    }

    /// Draws an ephemeral key pair, appends its public key to `packet` and adds it to the
    /// state.
    pub fn write_e(&mut self, rng: &mut OsRng, packet: &mut Vec<u8>) -> (r: App::KeyPair)
        ensures
            r.may_generate(),
            (final(self)@, final(packet)@) == old(self)@.e_written::<App>(
                old(packet)@,
                r.public_encoded(),
            ),
            final(packet)@.len() == old(packet)@.len() + P384_PUBLIC_KEY_SIZE,
    {
        let e_secret = App::KeyPair::generate(rng);
        self.put_e(&e_secret, packet);
        e_secret
    }

    /// Reads an ephemeral public key at `i` and adds it to the state, whether or not there is
    /// a key with this encoding.
    pub fn read_e(&mut self, i: &mut usize, packet: &Vec<u8>) -> (r: Result<
        App::PublicKey,
        ZetaError,
    >)
        requires
            *old(i) + P384_PUBLIC_KEY_SIZE <= packet@.len(),
        ensures
            *final(i) == *old(i) + P384_PUBLIC_KEY_SIZE,
            ({
                let (after, key) = old(self)@.e_read::<App>(*old(i) as int, packet@);
                &&& final(self)@ == after
                &&& r == (match key {
                    Some(key) => Ok::<App::PublicKey, ZetaError>(key),
                    None => Err(ZetaError::FailedAuthentication),
                })
            }),
    {
        let len = packet.len();
        let j: usize = *i + P384_PUBLIC_KEY_SIZE;
        let pub_key = array_at::<P384_PUBLIC_KEY_SIZE>(packet.as_slice(), *i);
        self.mix_hash(pub_key.as_slice());
        self.mix_key(pub_key.as_slice());
        *i = j;
        match App::PublicKey::from_bytes(&pub_key) {
            Some(key) => Ok(key),
            None => Err(ZetaError::FailedAuthentication),
        }
    }

    /// Adds the secret that `secret` shares with `remote` to the keys. Where there is none,
    /// the state stays as it was.
    pub fn token_dh(&mut self, secret: &App::KeyPair, remote: &App::PublicKey) -> (r: Option<()>)
        ensures
            r is Some <==> secret.shared(*remote) is Some,
            match secret.shared(*remote) {
                Some(ecdh) => final(self)@ == old(self)@.mix_key::<App>(ecdh),
                None => final(self)@ == old(self)@,
            },
    {
        match secret.agree(remote) {
            Some(ecdh) => {
                self.mix_key(ecdh.as_slice());
                Some(())
            },
            None => None,
        }
    }
}

impl<App: ApplicationLayer> Clone for SymmetricState<App> {
    fn clone(&self) -> (r: Self)
        ensures
            r@ == self@,
    {
        SymmetricState {
            k: self.k.clone(),
            ck: self.ck.clone(),
            h: self.h,
            app: std::marker::PhantomData,
        }
    }
}

} // verus!
