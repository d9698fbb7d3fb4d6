//! Packets that are sealed with a key of the session alone, outside of any transcript.

use vstd::prelude::*;

use crate::application::ApplicationLayer;
use crate::bytes::{append, array_at, part};
use crate::crypto::AesGcmAead;
use crate::proto::{AES_GCM_IV_SIZE, AES_GCM_TAG_SIZE};
use crate::secret::Secret;

verus! {

/// The packet that carries `plain`: its ciphertext and the tag.
pub open spec fn packet_sealed<App: ApplicationLayer>(
    key: Seq<u8>,
    nonce: Seq<u8>,
    plain: Seq<u8>,
) -> Seq<u8> {
    App::Aead::sealed(key, nonce, seq![], plain) + App::Aead::tag(key, nonce, seq![], plain)
}

/// What a packet carries, where its tag authenticates it.
pub open spec fn packet_opened<App: ApplicationLayer>(
    key: Seq<u8>,
    nonce: Seq<u8>,
    packet: Seq<u8>,
) -> Option<Seq<u8>> {
    let i = packet.len() - AES_GCM_TAG_SIZE;
    App::Aead::opened(
        key,
        nonce,
        seq![],
        packet.subrange(0, i),
        packet.subrange(i, packet.len() as int),
    )
}

/// The packet that carries nothing but the proof that its sender holds the key: the tag.
pub open spec fn control_tag<App: ApplicationLayer>(key: Seq<u8>, nonce: Seq<u8>) -> Seq<u8> {
    App::Aead::tag(key, nonce, seq![], seq![])
}

/// A packet that carries nothing shows that its sender holds the key.
pub open spec fn control_authentic<App: ApplicationLayer>(
    key: Seq<u8>,
    nonce: Seq<u8>,
    packet: Seq<u8>,
) -> bool {
    App::Aead::opened(key, nonce, seq![], seq![], packet) is Some
}

/// Seals `data` in place and appends the tag.
pub fn seal_packet<App: ApplicationLayer>(
    key: &Secret,
    nonce: &[u8; AES_GCM_IV_SIZE],
    data: &mut Vec<u8>,
)
    ensures
        final(data)@ == packet_sealed::<App>(key@, nonce@, old(data)@),
        final(data)@.len() == old(data)@.len() + AES_GCM_TAG_SIZE,
{
    let none: [u8; 0] = [];
    assert(none@ =~= seq![]);
    let tag = App::Aead::encrypt_in_place(key.as_ref(), nonce, none.as_slice(), data);
    append(data, tag.as_slice());
}

/// Opens a packet.
pub fn open_packet<App: ApplicationLayer>(
    key: &Secret,
    nonce: &[u8; AES_GCM_IV_SIZE],
    packet: &Vec<u8>,
) -> (r: Option<Vec<u8>>)
    requires
        packet@.len() >= AES_GCM_TAG_SIZE,
    ensures
        match packet_opened::<App>(key@, nonce@, packet@) {
            None => r is None,
            Some(plain) => r matches Some(p) && p@ == plain && p@.len() == packet@.len()
                - AES_GCM_TAG_SIZE,
        },
{
    let none: [u8; 0] = [];
    assert(none@ =~= seq![]);
    let i: usize = packet.len() - AES_GCM_TAG_SIZE;
    let mut data = part(packet.as_slice(), 0, i);
    let tag = array_at::<AES_GCM_TAG_SIZE>(packet.as_slice(), i);
    if App::Aead::decrypt_in_place(key.as_ref(), nonce, none.as_slice(), &mut data, &tag) {
        Some(data)
    } else {
        None
    }
}

/// Makes a packet that carries nothing.
pub fn seal_control<App: ApplicationLayer>(key: &Secret, nonce: &[u8; AES_GCM_IV_SIZE]) -> (r: Vec<
    u8,
>)
    ensures
        r@ == control_tag::<App>(key@, nonce@),
        r@.len() == AES_GCM_TAG_SIZE,
{
    let none: [u8; 0] = [];
    assert(none@ =~= seq![]);
    let mut data: Vec<u8> = Vec::new();
    assert(data@ =~= seq![]);
    let tag = App::Aead::encrypt_in_place(key.as_ref(), nonce, none.as_slice(), &mut data);
    vstd::slice::slice_to_vec(tag.as_slice())
}

/// Says whether a packet that carries nothing shows that its sender holds the key.
pub fn open_control<App: ApplicationLayer>(
    key: &Secret,
    nonce: &[u8; AES_GCM_IV_SIZE],
    packet: &Vec<u8>,
) -> (r: bool)
    requires
        packet@.len() == AES_GCM_TAG_SIZE,
    ensures
        r == control_authentic::<App>(key@, nonce@, packet@),
{
    let none: [u8; 0] = [];
    assert(none@ =~= seq![]);
    let mut data: Vec<u8> = Vec::new();
    assert(data@ =~= seq![]);
    let tag = array_at::<AES_GCM_TAG_SIZE>(packet.as_slice(), 0);
    assert(tag@ =~= packet@);
    App::Aead::decrypt_in_place(key.as_ref(), nonce, none.as_slice(), &mut data, &tag)
}

} // verus!
