//! The state machine of a session: the handshake that opens it, the rekeying that keeps it
//! alive, and the data that goes over it.

pub mod completion;
pub mod confirm;
pub mod data;
pub mod derivation;
pub mod exchange;
pub mod hello;
pub mod laws;
pub mod opening;
pub mod outcomes;
pub mod rekey;
pub mod response;
pub mod run;
pub mod sealed;
pub mod through;

use vstd::prelude::*;

use crate::application::{ApplicationLayer, RatchetStates, RatchetStatesView};
use crate::proto::{
    u64_be, u64_to_be_bytes, AES_GCM_IV_SIZE, AES_GCM_TAG_SIZE, CHALLENGE_SIZE,
    HANDSHAKE_COMPLETION_MIN_SIZE, HANDSHAKE_HELLO_CHALLENGE_MAX_SIZE, HANDSHAKE_HELLO_MAX_SIZE,
    HANDSHAKE_HELLO_MIN_SIZE, HANDSHAKE_RESPONSE_SIZE, KID_SIZE, PACKET_TYPE_CHALLENGE,
    PACKET_TYPE_DATA, PACKET_TYPE_HANDSHAKE_COMPLETION, PACKET_TYPE_HANDSHAKE_HELLO,
    PACKET_TYPE_HANDSHAKE_RESPONSE, PACKET_TYPE_REKEY_COMPLETE, PACKET_TYPE_REKEY_INIT, REKEY_SIZE,
};
use crate::ratchet_state::secret_view;
use crate::secret::{Secret, SecretVec};
use crate::symmetric_state::{Noise, SymmetricState};

verus! {

/// The nonce that carries a packet type and a counter: three zero bytes, the type, and the
/// counter with its most significant byte first.
pub open spec fn nonce_spec(packet_type: u8, counter: u64) -> Seq<u8> {
    seq![0u8, 0u8, 0u8, packet_type] + u64_be(counter)
}

/// Create a 96-bit AES-GCM nonce.
///
/// The primary information that we want to be contained here is the counter and the
/// packet type. The former makes this unique and the latter's inclusion authenticates
/// it as effectively AAD. Other elements of the header are either not authenticated,
/// like fragmentation info, or their authentication is implied via key exchange like
/// the key id.
pub fn nonce(packet_type: u8, counter: u64) -> (r: [u8; AES_GCM_IV_SIZE])
    ensures
        r@ == nonce_spec(packet_type, counter),
{
    // Noise requires a big endian counter at the end of the Nonce
    let c = u64_to_be_bytes(counter);
    let r: [u8; AES_GCM_IV_SIZE] = [
        0,
        0,
        0,
        packet_type,
        c[0],
        c[1],
        c[2],
        c[3],
        c[4],
        c[5],
        c[6],
        c[7],
    ];
    assert(r@ =~= nonce_spec(packet_type, counter));
    r
}

/// The keys of one direction of a session, and the id that packets name them by.
pub struct Keys {
    pub kek: Option<Secret>,
    pub nk: Option<Secret>,
    pub kid: Option<u32>,
}

/// What the keys of one direction hold.
#[verifier::ext_equal]
pub struct KeysView {
    pub kek: Option<Seq<u8>>,
    pub nk: Option<Seq<u8>>,
    pub kid: Option<u32>,
}

impl View for Keys {
    type V = KeysView;

    open spec fn view(&self) -> KeysView {
        KeysView { kek: secret_view(self.kek), nk: secret_view(self.nk), kid: self.kid }
    }
}

/// The keys of both directions of a session.
pub struct DualKeys {
    pub send: Keys,
    pub recv: Keys,
}

/// What the keys of both directions hold.
#[verifier::ext_equal]
pub struct DualKeysView {
    pub send: KeysView,
    pub recv: KeysView,
}

impl View for DualKeys {
    type V = DualKeysView;

    open spec fn view(&self) -> DualKeysView {
        DualKeysView { send: self.send@, recv: self.recv@ }
    }
}

/// Keys that have not been agreed yet.
pub open spec fn no_keys() -> KeysView {
    KeysView { kek: None, nk: None, kid: None }
}

impl KeysView {
    /// Every key is there, and so is an id, which is not zero.
    pub open spec fn full(self) -> bool {
        self.kek is Some && self.nk is Some && self.kid is Some && self.kid != Some(0u32)
    }
}

impl DualKeysView {
    /// Both directions have every key.
    pub open spec fn full(self) -> bool {
        self.send.full() && self.recv.full()
    }

    /// No id is zero, and where there is a key to send control packets with there is the id
    /// that it goes by.
    pub open spec fn wf(self) -> bool {
        &&& self.send.kid != Some(0u32)
        &&& self.recv.kid != Some(0u32)
        &&& self.send.kek is Some ==> self.send.kid is Some
    }
}

impl Default for Keys {
    /// Keys that have not been agreed yet.
    fn default() -> (r: Keys)
        ensures
            r@ == no_keys(),
    {
        Keys { kek: None, nk: None, kid: None }
    }
}

impl Default for DualKeys {
    /// Keys that have not been agreed yet.
    fn default() -> (r: DualKeys)
        ensures
            r@ == (DualKeysView { send: no_keys(), recv: no_keys() }),
    {
        DualKeys { send: Keys::default(), recv: Keys::default() }
    }
}

/// A packet to send: the id of the key that the receiver knows it by, its nonce, and what it
/// carries.
pub struct Packet(pub u32, pub [u8; AES_GCM_IV_SIZE], pub Vec<u8>);

/// What a packet holds.
#[verifier::ext_equal]
pub struct PacketView {
    pub kid: u32,
    pub nonce: Seq<u8>,
    pub payload: Seq<u8>,
}

impl PacketView {
    /// The packet carries a tag at least, as every packet does.
    pub open spec fn sized(self) -> bool {
        self.payload.len() >= AES_GCM_TAG_SIZE
    }

    /// The packet has a size that packets of its type have.
    pub open spec fn measured(self) -> bool {
        let packet_type = self.nonce[3];
        let len = self.payload.len();
        if packet_type == PACKET_TYPE_HANDSHAKE_HELLO {
            HANDSHAKE_HELLO_MIN_SIZE <= len <= HANDSHAKE_HELLO_CHALLENGE_MAX_SIZE
        } else if packet_type == PACKET_TYPE_HANDSHAKE_RESPONSE {
            len == HANDSHAKE_RESPONSE_SIZE
        } else if packet_type == PACKET_TYPE_HANDSHAKE_COMPLETION {
            len >= HANDSHAKE_COMPLETION_MIN_SIZE
        } else if packet_type == PACKET_TYPE_REKEY_INIT || packet_type
            == PACKET_TYPE_REKEY_COMPLETE {
            len == REKEY_SIZE
        } else if packet_type == PACKET_TYPE_CHALLENGE {
            len == KID_SIZE + CHALLENGE_SIZE
        } else if packet_type == PACKET_TYPE_DATA {
            len >= AES_GCM_TAG_SIZE
        } else {
            len == AES_GCM_TAG_SIZE
        }
    }
}

impl View for Packet {
    type V = PacketView;

    open spec fn view(&self) -> PacketView {
        PacketView { kid: self.0, nonce: self.1@, payload: self.2@ }
    }
}

/// Where a session stands in its key exchanges.
pub enum ZsspAutomata<App: ApplicationLayer> {
    /// The session has expired.
    Null,
    /// The current key is confirmed.
    S2,
    /// A hello has been sent.
    A1 { noise: SymmetricState<App>, e_secret: App::KeyPair, e1_secret: SecretVec, x1: Vec<u8> },
    /// A handshake completion has been sent.
    A3 { x3: Vec<u8> },
    /// A new key has been asked for, by the packet `k1` with this counter.
    R1 { noise: SymmetricState<App>, e_secret: App::KeyPair, k1: Vec<u8>, counter: u64 },
    /// A new key has been offered, by the packet `k2` with this counter.
    R2 { k2: Vec<u8>, counter: u64 },
    /// The current key has not been confirmed yet.
    S1,
}

/// What the place of a session in its key exchanges holds.
pub enum BetaView<App: ApplicationLayer> {
    Null,
    S2,
    A1 { noise: Noise, e_secret: App::KeyPair, e1_secret: Seq<u8>, x1: Seq<u8> },
    A3 { x3: Seq<u8> },
    R1 { noise: Noise, e_secret: App::KeyPair, k1: Seq<u8>, counter: u64 },
    R2 { k2: Seq<u8>, counter: u64 },
    S1,
}

impl<App: ApplicationLayer> View for ZsspAutomata<App> {
    type V = BetaView<App>;

    open spec fn view(&self) -> BetaView<App> {
        match *self {
            ZsspAutomata::Null => BetaView::Null,
            ZsspAutomata::S2 => BetaView::S2,
            ZsspAutomata::A1 { noise, e_secret, e1_secret, x1 } => BetaView::A1 {
                noise: noise@,
                e_secret,
                e1_secret: e1_secret@,
                x1: x1@,
            },
            ZsspAutomata::A3 { x3 } => BetaView::A3 { x3: x3@ },
            ZsspAutomata::R1 { noise, e_secret, k1, counter } => BetaView::R1 {
                noise: noise@,
                e_secret,
                k1: k1@,
                counter,
            },
            ZsspAutomata::R2 { k2, counter } => BetaView::R2 { k2: k2@, counter },
            ZsspAutomata::S1 => BetaView::S1,
        }
    }
}

/// A session.
pub struct Zeta<App: ApplicationLayer> {
    /// An arbitrary application defined object associated with each session.
    pub application_data: App::Data,
    /// Is true if the local peer acted as Bob, the responder in the initial key exchange.
    pub was_bob: bool,
    pub s_remote: App::PublicKey,
    pub send_counter: u64,
    pub key_creation_counter: u64,
    pub key_index: bool,
    pub keys: [DualKeys; 2],
    pub ratchet_states: RatchetStates,
    pub hk_send: Secret,
    pub hk_recv: Secret,
    pub resend_timer: i64,
    pub timeout_timer: i64,
    pub beta: ZsspAutomata<App>,
}

/// What a session holds.
pub struct ZetaView<App: ApplicationLayer> {
    pub application_data: App::Data,
    pub was_bob: bool,
    pub s_remote: App::PublicKey,
    pub send_counter: u64,
    pub key_creation_counter: u64,
    pub key_index: bool,
    pub keys: (DualKeysView, DualKeysView),
    pub ratchet_states: RatchetStatesView,
    pub hk_send: Seq<u8>,
    pub hk_recv: Seq<u8>,
    pub resend_timer: i64,
    pub timeout_timer: i64,
    pub beta: BetaView<App>,
}

impl<App: ApplicationLayer> View for Zeta<App> {
    type V = ZetaView<App>;

    open spec fn view(&self) -> ZetaView<App> {
        ZetaView {
            application_data: self.application_data,
            was_bob: self.was_bob,
            s_remote: self.s_remote,
            send_counter: self.send_counter,
            key_creation_counter: self.key_creation_counter,
            key_index: self.key_index,
            keys: (self.keys[0]@, self.keys[1]@),
            ratchet_states: self.ratchet_states@,
            hk_send: self.hk_send@,
            hk_recv: self.hk_recv@,
            resend_timer: self.resend_timer,
            timeout_timer: self.timeout_timer,
            beta: self.beta@,
        }
    }
}

impl<App: ApplicationLayer> ZetaView<App> {
    /// The current keys, or the ones that will follow them.
    pub open spec fn key(self, is_next: bool) -> DualKeysView {
        if self.key_index != is_next {
            self.keys.1
        } else {
            self.keys.0
        }
    }

    /// The session with `keys` in place of its current keys, or of the ones that will follow.
    pub open spec fn with_key(self, is_next: bool, keys: DualKeysView) -> Self {
        ZetaView {
            keys: if self.key_index != is_next {
                (self.keys.0, keys)
            } else {
                (keys, self.keys.1)
            },
            ..self
        }
    }

    /// What holds of a session in every state that it can come to.
    pub open spec fn wf(self) -> bool {
        &&& self.keys.0.wf()
        &&& self.keys.1.wf()
        &&& self.key_creation_counter <= self.send_counter
        &&& match self.beta {
            BetaView::Null => true,
            BetaView::A1 { x1, .. } => {
                &&& self.key(true).recv.kid is Some
                &&& HANDSHAKE_HELLO_MIN_SIZE <= x1.len() <= HANDSHAKE_HELLO_MAX_SIZE
            },
            BetaView::A3 { x3 } => {
                &&& self.key(true).full()
                &&& self.ratchet_states.first is Some
                &&& x3.len() >= HANDSHAKE_COMPLETION_MIN_SIZE
            },
            BetaView::S1 => self.key(false).full() && self.ratchet_states.first is Some,
            BetaView::S2 => self.key(false).full() && self.ratchet_states.first is Some,
            BetaView::R1 { k1, .. } => {
                &&& k1.len() == REKEY_SIZE
                &&& self.key(false).full()
                &&& self.key(true).recv.kid is Some
                &&& self.ratchet_states.first is Some
            },
            BetaView::R2 { k2, .. } => {
                &&& k2.len() == REKEY_SIZE
                &&& self.key(false).full()
                &&& self.key(true).full()
                &&& self.ratchet_states.first is Some
            },
        }
    }

    /// The session after it has expired.
    pub open spec fn expired(self) -> Self {
        ZetaView { beta: BetaView::Null, ..self }
    }
}

impl<App: ApplicationLayer> Zeta<App> {
    /// The current keys, or the ones that will follow them.
    pub fn key_ref(&self, is_next: bool) -> (r: &DualKeys)
        ensures
            r@ == self@.key(is_next),
    {
        if self.key_index != is_next {
            &self.keys[1]
        } else {
            &self.keys[0]
        }
    }

    /// The current keys, or the ones that will follow them, to be changed.
    pub fn key_mut(&mut self, is_next: bool) -> (r: &mut DualKeys)
        ensures
            r@ == old(self)@.key(is_next),
            final(self)@ == old(self)@.with_key(is_next, final(r)@),
    {
        if self.key_index != is_next {
            &mut self.keys[1]
        } else {
            &mut self.keys[0]
        }
    }

    /// Marks the session as expired. It will not send any more data.
    pub fn expire(&mut self)
        ensures
            final(self)@ == old(self)@.expired(),
    {
        self.beta = ZsspAutomata::Null;
    }
}

} // verus!
