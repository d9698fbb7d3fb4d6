//! Rekeying: a session that is established agrees on a new key, tied to its ratchet.

use rand_core::OsRng;
use vstd::prelude::*;

use crate::application::{ApplicationLayer, RatchetStates, RatchetStatesView, Settings};
use crate::bytes::{append, array_at, part};
use crate::crypto::{P384KeyPair, P384PublicKey};
use crate::proto::{
    u32_be, u32_from_be_bytes, u32_of_be, u32_to_be_bytes, AES_GCM_IV_SIZE, AES_GCM_TAG_SIZE,
    INITIAL_H_REKEY, KEY_CONFIRMATION_SIZE, LABEL_KEX_KEY, LABEL_RATCHET_STATE,
    P384_PUBLIC_KEY_SIZE,
    PACKET_TYPE_KEY_CONFIRM, PACKET_TYPE_REKEY_COMPLETE, PACKET_TYPE_REKEY_INIT, REKEY_SIZE,
    SESSION_ID_SIZE,
};
use crate::ratchet_state::{clone_ratchet, next_ratchet, RatchetState};
use crate::result::ZetaError;
use crate::symmetric_state::{Noise, SymmetricState};
use crate::zeta::sealed::{
    control_tag, open_packet, packet_opened, packet_sealed, seal_control, seal_packet,
};
use crate::zeta::{
    nonce, nonce_spec, BetaView, DualKeysView, KeysView, Packet, PacketView, Zeta, ZetaView,
    ZsspAutomata,
};

verus! {

/// Where the encrypted id of a rekeying packet ends.
pub const REKEY_KID_END: usize = P384_PUBLIC_KEY_SIZE + SESSION_ID_SIZE;

/// Where the tag of the id of a rekeying packet ends.
pub const REKEY_END: usize = REKEY_KID_END + AES_GCM_TAG_SIZE;

/// The state of both peers once the keys of a rekeying offer are agreed: `s_offering` and
/// `s_answering` are their static keys, `es` and `ss` the secrets of the ephemeral key and of
/// the two static keys.
pub open spec fn rekey_start<App: ApplicationLayer>(
    s_offering: Seq<u8>,
    s_answering: Seq<u8>,
    ratchet_key: Seq<u8>,
    e_public: Seq<u8>,
    es: Seq<u8>,
    ss: Seq<u8>,
) -> Noise {
    Noise::initial(INITIAL_H_REKEY@).mix_hash::<App>(s_offering).mix_hash::<App>(
        s_answering,
    ).mix_key_and_hash::<App>(ratchet_key).mix_e::<App>(e_public).mix_key::<App>(
        es,
    ).mix_key::<App>(ss)
}

/// The state that a rekeying packet leaves its sender in, and what the packet carries: the
/// ephemeral key, and the sealed id.
pub open spec fn rekey_written<App: ApplicationLayer>(
    noise: Noise,
    packet_type: u8,
    e_public: Seq<u8>,
    kid: u32,
) -> (Noise, Seq<u8>) {
    let payload = noise.sealed::<App>(nonce_spec(packet_type, 0), u32_be(kid));
    (noise.mix_hash::<App>(payload), e_public + payload)
}

/// The id that a rekeying packet of this type carries, and the state that it leaves its receiver
/// in; `None` where it does not authenticate, or the id is zero.
pub open spec fn rekey_payload<App: ApplicationLayer>(
    noise: Noise,
    packet_type: u8,
    packet: Seq<u8>,
) -> Option<(u32, Noise)> {
    match noise.opened::<App>(
        nonce_spec(packet_type, 0),
        packet.subrange(P384_PUBLIC_KEY_SIZE as int, REKEY_KID_END as int),
        packet.subrange(REKEY_KID_END as int, REKEY_END as int),
    ) {
        None => None,
        Some(kid) => if u32_of_be(kid) == 0 {
            None
        } else {
            Some(
                (
                    u32_of_be(kid),
                    noise.mix_hash::<App>(
                        packet.subrange(P384_PUBLIC_KEY_SIZE as int, REKEY_END as int),
                    ),
                ),
            )
        },
    }
}

/// What a session has read from a rekeying packet.
pub struct Rekey<App: ApplicationLayer> {
    pub noise: SymmetricState<App>,
    pub e_remote: App::PublicKey,
    pub kid_send: u32,
}

/// What a session has read from a rekeying packet.
pub struct RekeyView<App: ApplicationLayer> {
    pub noise: Noise,
    pub e_remote: App::PublicKey,
    pub kid_send: u32,
}

impl<App: ApplicationLayer> View for Rekey<App> {
    type V = RekeyView<App>;

    open spec fn view(&self) -> RekeyView<App> {
        RekeyView { noise: self.noise@, e_remote: self.e_remote, kid_send: self.kid_send }
    }
}

/// The state of a session that answers `offer` with the ephemeral key `e_secret`, and what its
/// answer carries; `None` where no secret can be agreed.
pub open spec fn rekey_answered<App: ApplicationLayer>(
    offer: RekeyView<App>,
    kid_recv: u32,
    s_secret: App::KeyPair,
    e_secret: App::KeyPair,
) -> Option<(Noise, Seq<u8>)> {
    match (e_secret.shared(offer.e_remote), s_secret.shared(offer.e_remote)) {
        (Some(ee), Some(se)) => Some(
            rekey_written::<App>(
                offer.noise.mix_e::<App>(e_secret.public_encoded()).mix_key::<App>(
                    ee,
                ).mix_key::<App>(se),
                PACKET_TYPE_REKEY_COMPLETE,
                e_secret.public_encoded(),
                kid_recv,
            ),
        ),
        _ => None,
    }
}

impl<App: ApplicationLayer> ZetaView<App> {
    /// The session after it has offered a new key with the ephemeral key `e_secret`, and the
    /// packet that carries the offer; `None` where no secret can be agreed.
    pub open spec fn rekey_offered(
        self,
        settings: Settings,
        kid_recv: u32,
        s_secret: App::KeyPair,
        e_secret: App::KeyPair,
        current_time: i64,
    ) -> Option<(Self, PacketView)> {
        match (e_secret.shared(self.s_remote), s_secret.shared(self.s_remote)) {
            (Some(es), Some(ss)) => {
                let (noise, inner) = rekey_written::<App>(
                    rekey_start::<App>(
                        s_secret.public_encoded(),
                        self.s_remote.encoded(),
                        (self.ratchet_states.first->0).key,
                        e_secret.public_encoded(),
                        es,
                        ss,
                    ),
                    PACKET_TYPE_REKEY_INIT,
                    e_secret.public_encoded(),
                    kid_recv,
                );
                let n = nonce_spec(PACKET_TYPE_REKEY_INIT, self.send_counter);
                let k1 = packet_sealed::<App>(self.key(false).send.kek->0, n, inner);
                let next = self.key(true);
                let keys = DualKeysView {
                    recv: KeysView { kid: Some(kid_recv), ..next.recv },
                    ..next
                };
                Some(
                    (
                        ZetaView {
                            send_counter: (self.send_counter + 1) as u64,
                            timeout_timer: (current_time + settings.expiration_timeout_ms) as i64,
                            resend_timer: (current_time + settings.retry_interval_ms) as i64,
                            beta: BetaView::R1 { noise, e_secret, k1, counter: self.send_counter },
                            ..self.with_key(true, keys)
                        },
                        PacketView { kid: self.key(false).send.kid->0, nonce: n, payload: k1 },
                    ),
                )
            },
            _ => None,
        }
    }

    /// `after` and `r` may be what comes of offering a new key.
    pub open spec fn rekey_offer_handled(
        self,
        settings: Settings,
        kid_recv: u32,
        s_secret: App::KeyPair,
        current_time: i64,
        after: Self,
        r: Result<Packet, ZetaError>,
    ) -> bool {
        if !(self.beta is S2) {
            after == self && r matches Err(ZetaError::OutOfSequence)
        } else {
            exists|e_secret: App::KeyPair|
                e_secret.may_generate() && match #[trigger] self.rekey_offered(
                    settings,
                    kid_recv,
                    s_secret,
                    e_secret,
                    current_time,
                ) {
                    None => after == self && r matches Err(ZetaError::FailedAuthentication),
                    Some((zeta, packet)) => r matches Ok(p) && p@ == packet && after == zeta,
                }
        }
    }

    /// The session may answer an offer of a new key: it has made none, or it has, and gives way
    /// because it was the responder of the handshake.
    pub open spec fn should_rekey_as_bob(self) -> bool {
        self.beta is S2 || (self.beta is R1 && self.was_bob)
    }

    /// What the session reads from the rekeying offer `k1` to the id `kid`, or why it does not
    /// take it.
    pub open spec fn rekey_read(
        self,
        s_secret: App::KeyPair,
        kid: u32,
        n: Seq<u8>,
        k1: Seq<u8>,
    ) -> Result<RekeyView<App>, ZetaError> {
        if k1.len() != REKEY_SIZE {
            Err(ZetaError::FailedAuthentication)
        } else if self.key(false).recv.kid != Some(kid) || !self.should_rekey_as_bob() {
            Err(ZetaError::OutOfSequence)
        } else {
            match packet_opened::<App>(self.key(false).recv.kek->0, n, k1) {
                None => Err(ZetaError::FailedAuthentication),
                Some(inner) => {
                    let e_public = inner.subrange(0, P384_PUBLIC_KEY_SIZE as int);
                    match App::PublicKey::decoded(e_public) {
                        None => Err(ZetaError::FailedAuthentication),
                        Some(e_remote) => match (
                            s_secret.shared(e_remote),
                            s_secret.shared(self.s_remote),
                        ) {
                            (Some(es), Some(ss)) => match rekey_payload::<App>(
                                rekey_start::<App>(
                                    self.s_remote.encoded(),
                                    s_secret.public_encoded(),
                                    (self.ratchet_states.first->0).key,
                                    e_public,
                                    es,
                                    ss,
                                ),
                                PACKET_TYPE_REKEY_INIT,
                                inner,
                            ) {
                                None => Err(ZetaError::FailedAuthentication),
                                Some((kid_send, noise)) => Ok(
                                    RekeyView { noise, e_remote, kid_send },
                                ),
                            },
                            _ => Err(ZetaError::FailedAuthentication),
                        },
                    }
                },
            }
        }
    }

    /// The packet that carries the answer `inner` to an offer of a new key.
    pub open spec fn rekey_answer_packet(self, inner: Seq<u8>) -> PacketView {
        let n = nonce_spec(PACKET_TYPE_REKEY_COMPLETE, self.send_counter);
        PacketView {
            kid: self.key(false).send.kid->0,
            nonce: n,
            payload: packet_sealed::<App>(self.key(false).send.kek->0, n, inner),
        }
    }

    /// The ratchet states once a new key is agreed, with `second` beside the newest one.
    pub open spec fn ratchet_advanced(
        self,
        noise: Noise,
        second: Option<crate::ratchet_state::RatchetView>,
    ) -> RatchetStatesView {
        let rk = noise.ask::<App>(LABEL_RATCHET_STATE@);
        RatchetStatesView {
            first: Some(next_ratchet(rk.0, rk.1, (self.ratchet_states.first->0).chain_len)),
            second,
        }
    }

    /// The session after it has used a counter.
    pub open spec fn counted(self) -> Self {
        ZetaView { send_counter: (self.send_counter + 1) as u64, ..self }
    }

    /// The session after it has answered an offer of a new key by the packet `k2`.
    pub open spec fn r2_session(
        self,
        settings: Settings,
        noise: Noise,
        kid_send: u32,
        kid_recv: u32,
        k2: Seq<u8>,
        current_time: i64,
    ) -> Self {
        let kek = noise.ask::<App>(LABEL_KEX_KEY@);
        let nk = noise.split::<App>();
        let keys = DualKeysView {
            send: KeysView { kek: Some(kek.0), nk: Some(nk.0), kid: Some(kid_send) },
            recv: KeysView { kek: Some(kek.1), nk: Some(nk.1), kid: Some(kid_recv) },
        };
        ZetaView {
            ratchet_states: self.ratchet_advanced(noise, self.ratchet_states.first),
            send_counter: (self.send_counter + 1) as u64,
            key_creation_counter: (self.send_counter + 1) as u64,
            timeout_timer: (current_time + settings.expiration_timeout_ms) as i64,
            resend_timer: (current_time + settings.retry_interval_ms) as i64,
            beta: BetaView::R2 { k2, counter: self.send_counter },
            ..self.with_key(true, keys)
        }
    }

    /// `after` and `r` may be what comes of answering `offer`, and `app_after` what becomes of the
    /// application.
    pub open spec fn rekey_answer_handled(
        self,
        app: App,
        offer: RekeyView<App>,
        kid_recv: u32,
        s_secret: App::KeyPair,
        current_time: i64,
        after: Self,
        app_after: App,
        r: Result<Packet, ZetaError>,
    ) -> bool {
        exists|e_secret: App::KeyPair|
            e_secret.may_generate() && match #[trigger] rekey_answered(
                offer,
                kid_recv,
                s_secret,
                e_secret,
            ) {
                None => after == self && app_after == app && r matches Err(
                    ZetaError::FailedAuthentication,
                ),
                Some((noise, inner)) => exists|saved: Result<(), std::io::Error>|
                    {
                        &&& #[trigger] app.may_save_ratchet_state(
                            self.s_remote,
                            self.application_data,
                            self.ratchet_states,
                            self.ratchet_advanced(noise, self.ratchet_states.first),
                            saved,
                            app_after,
                        )
                        &&& match saved {
                            Err(e) => after == self.counted() && r == Err::<Packet, ZetaError>(
                                ZetaError::RatchetIoError(e),
                            ),
                            Ok(_) => {
                                &&& r matches Ok(p)
                                &&& p@ == self.rekey_answer_packet(inner)
                                &&& after == self.r2_session(
                                    app.settings_spec(),
                                    noise,
                                    offer.kid_send,
                                    kid_recv,
                                    p@.payload,
                                    current_time,
                                )
                            },
                        }
                    },
            }
    }

    /// `after` and `r` may be what comes of the rekeying offer `k1` to the id `kid`, and
    /// `app_after` what becomes of the application. Nothing is stored where the offer is not
    /// taken.
    pub open spec fn rekey_handled(
        self,
        app: App,
        kid_recv: u32,
        s_secret: App::KeyPair,
        kid: u32,
        n: Seq<u8>,
        k1: Seq<u8>,
        current_time: i64,
        after: Self,
        app_after: App,
        r: Result<Packet, ZetaError>,
    ) -> bool {
        match self.rekey_read(s_secret, kid, n, k1) {
            Err(e) => after == self && app_after == app && r == Err::<Packet, ZetaError>(e),
            Ok(offer) => self.rekey_answer_handled(
                app,
                offer,
                kid_recv,
                s_secret,
                current_time,
                after,
                app_after,
                r,
            ),
        }
    }

    /// What the session reads from the answer `k2` to its rekeying offer, or why it does not
    /// take it.
    pub open spec fn rekey_answer_read(self, kid: u32, n: Seq<u8>, k2: Seq<u8>) -> Result<
        RekeyView<App>,
        ZetaError,
    > {
        if k2.len() != REKEY_SIZE {
            Err(ZetaError::FailedAuthentication)
        } else if self.key(false).recv.kid != Some(kid) {
            Err(ZetaError::OutOfSequence)
        } else {
            match self.beta {
                BetaView::R1 { noise, e_secret, .. } => match packet_opened::<App>(
                    self.key(false).recv.kek->0,
                    n,
                    k2,
                ) {
                    None => Err(ZetaError::FailedAuthentication),
                    Some(inner) => {
                        let e_public = inner.subrange(0, P384_PUBLIC_KEY_SIZE as int);
                        match App::PublicKey::decoded(e_public) {
                            None => Err(ZetaError::FailedAuthentication),
                            Some(e_remote) => match (
                                e_secret.shared(e_remote),
                                e_secret.shared(self.s_remote),
                            ) {
                                (Some(ee), Some(se)) => match rekey_payload::<App>(
                                    noise.mix_e::<App>(e_public).mix_key::<App>(ee).mix_key::<App>(
                                        se,
                                    ),
                                    PACKET_TYPE_REKEY_COMPLETE,
                                    inner,
                                ) {
                                    None => Err(ZetaError::FailedAuthentication),
                                    Some((kid_send, noise)) => Ok(
                                        RekeyView { noise, e_remote, kid_send },
                                    ),
                                },
                                _ => Err(ZetaError::FailedAuthentication),
                            },
                        }
                    },
                },
                _ => Err(ZetaError::OutOfSequence),
            }
        }
    }

    /// The session after its offer of a new key has been answered: the new key is the current
    /// one, and the session has sent a key confirmation.
    pub open spec fn s1_session(
        self,
        settings: Settings,
        noise: Noise,
        kid_send: u32,
        current_time: i64,
    ) -> Self {
        let kek = noise.ask::<App>(LABEL_KEX_KEY@);
        let nk = noise.split::<App>();
        let keys = DualKeysView {
            send: KeysView { kek: Some(kek.1), nk: Some(nk.1), kid: Some(kid_send) },
            recv: KeysView { kek: Some(kek.0), nk: Some(nk.0), kid: self.key(true).recv.kid },
        };
        ZetaView {
            ratchet_states: self.ratchet_advanced(noise, self.ratchet_states.second),
            key_index: !self.key_index,
            send_counter: (self.send_counter + 1) as u64,
            key_creation_counter: self.send_counter,
            timeout_timer: (current_time + settings.expiration_timeout_ms) as i64,
            resend_timer: (current_time + settings.retry_interval_ms) as i64,
            beta: BetaView::S1,
            ..self.with_key(true, keys)
        }
    }

    /// The key confirmation that follows the answer to an offer of a new key.
    pub open spec fn rekey_confirmation(self, noise: Noise, kid_send: u32) -> PacketView {
        let n = nonce_spec(PACKET_TYPE_KEY_CONFIRM, self.send_counter);
        PacketView {
            kid: kid_send,
            nonce: n,
            payload: control_tag::<App>(noise.ask::<App>(LABEL_KEX_KEY@).1, n),
        }
    }

    /// `after` and `r` may be what comes of the answer `k2` to a rekeying offer, and `app_after`
    /// what becomes of the application. Nothing is stored where the answer is not taken.
    pub open spec fn rekey_completed(
        self,
        app: App,
        kid: u32,
        n: Seq<u8>,
        k2: Seq<u8>,
        current_time: i64,
        after: Self,
        app_after: App,
        r: Result<Packet, ZetaError>,
    ) -> bool {
        match self.rekey_answer_read(kid, n, k2) {
            Err(e) => after == self && app_after == app && r == Err::<Packet, ZetaError>(e),
            Ok(answer) => exists|saved: Result<(), std::io::Error>|
                {
                    &&& #[trigger] app.may_save_ratchet_state(
                        self.s_remote,
                        self.application_data,
                        self.ratchet_states,
                        self.ratchet_advanced(answer.noise, None),
                        saved,
                        app_after,
                    )
                    &&& match saved {
                        Err(e) => after == self && r == Err::<Packet, ZetaError>(
                            ZetaError::RatchetIoError(e),
                        ),
                        Ok(_) => {
                            &&& after == self.s1_session(
                                app.settings_spec(),
                                answer.noise,
                                answer.kid_send,
                                current_time,
                            )
                            &&& r matches Ok(p)
                            &&& p@ == self.rekey_confirmation(answer.noise, answer.kid_send)
                        },
                    }
                },
        }
    }
}

/// Reads the id that a rekeying packet carries.
fn read_rekey_payload<App: ApplicationLayer>(
    noise: &mut SymmetricState<App>,
    packet_type: u8,
    packet: &Vec<u8>,
) -> (r: Option<u32>)
    requires
        packet@.len() == REKEY_END,
    ensures
        match rekey_payload::<App>(old(noise)@, packet_type, packet@) {
            None => r is None,
            Some((kid, after)) => r == Some(kid) && final(noise)@ == after,
        },
{
    let mut kid = part(packet.as_slice(), P384_PUBLIC_KEY_SIZE, REKEY_KID_END);
    let tag = array_at::<AES_GCM_TAG_SIZE>(packet.as_slice(), REKEY_KID_END);
    assert(kid@ + tag@ =~= packet@.subrange(P384_PUBLIC_KEY_SIZE as int, REKEY_END as int));
    if !noise.decrypt_and_hash(nonce(packet_type, 0), &mut kid, tag) {
        return None;
    }
    let kid_send = u32_from_be_bytes(kid.as_slice());
    if kid_send == 0 {
        None
    } else {
        Some(kid_send)
    }
}

/// Appends the sealed id of a rekeying packet.
fn write_rekey_payload<App: ApplicationLayer>(
    noise: &mut SymmetricState<App>,
    packet_type: u8,
    kid: u32,
    packet: &mut Vec<u8>,
)
    ensures
        (final(noise)@, final(packet)@) == rekey_written::<App>(
            old(noise)@,
            packet_type,
            old(packet)@,
            kid,
        ),
        final(packet)@.len() == old(packet)@.len() + SESSION_ID_SIZE + AES_GCM_TAG_SIZE,
{
    let ghost e_public = packet@;
    let i: usize = packet.len();
    let kid_bytes = u32_to_be_bytes(kid);
    append(packet, kid_bytes.as_slice());
    assert(packet@.subrange(i as int, packet@.len() as int) =~= u32_be(kid));
    assert(packet@.subrange(0, i as int) =~= e_public);
    noise.encrypt_and_hash(nonce(packet_type, 0), i, packet);
}

impl<App: ApplicationLayer> Zeta<App> {
    /// Offers a new key with the ephemeral key `e_secret`: the packet to send; `None` where no
    /// secret can be agreed, and then the session stays as it was.
    pub fn offer_rekey(
        &mut self,
        settings: &Settings,
        kid_recv: u32,
        s_secret: &App::KeyPair,
        e_secret: App::KeyPair,
        current_time: i64,
    ) -> (r: Option<Packet>)
        requires
            old(self)@.wf(),
            old(self)@.beta is S2,
            old(self)@.send_counter < u64::MAX,
            kid_recv != 0,
            settings.valid(),
            settings.reckons_from(current_time),
        ensures
            match old(self)@.rekey_offered(
                *settings,
                kid_recv,
                *s_secret,
                e_secret,
                current_time,
            ) {
                None => r is None && final(self)@ == old(self)@,
                Some((zeta, packet)) => r matches Some(p) && p@ == packet && final(self)@ == zeta,
            },
            final(self)@.wf(),
            r matches Some(p) ==> p@.payload.len() == REKEY_SIZE,
    {
        let mut k1: Vec<u8> = Vec::new();
        let mut noise = SymmetricState::<App>::initialize(INITIAL_H_REKEY);
        // Noise process prologue.
        noise.mix_hash(s_secret.public_key_bytes().as_slice());
        noise.mix_hash(self.s_remote.to_bytes().as_slice());
        // Noise process pattern1 psk0 token.
        let first = self.ratchet_states.first.as_ref().unwrap();
        noise.mix_key_and_hash(first.key.as_ref().as_slice());
        // Noise process pattern1 e token.
        noise.put_e(&e_secret, &mut k1);
        assert(k1@ =~= e_secret.public_encoded());
        // Noise process pattern1 es token.
        if noise.token_dh(&e_secret, &self.s_remote).is_none() {
            return None;
        }
        // Noise process pattern1 ss token.
        if noise.token_dh(s_secret, &self.s_remote).is_none() {
            return None;
        }
        // Noise process pattern1 payload token.
        write_rekey_payload::<App>(&mut noise, PACKET_TYPE_REKEY_INIT, kid_recv, &mut k1);

        let c = self.send_counter;
        self.send_counter += 1;
        let n = nonce(PACKET_TYPE_REKEY_INIT, c);
        seal_packet::<App>(self.key_ref(false).send.kek.as_ref().unwrap(), &n, &mut k1);

        self.key_mut(true).recv.kid = Some(kid_recv);
        self.timeout_timer = current_time + settings.expiration_timeout_ms;
        self.resend_timer = current_time + settings.retry_interval_ms;
        let k1_copy = part(k1.as_slice(), 0, k1.len());
        assert(k1_copy@ =~= k1@);
        self.beta = ZsspAutomata::R1 { noise, e_secret, k1: k1_copy, counter: c };

        Some(Packet(self.key_ref(false).send.kid.unwrap(), n, k1))
    }

    /// Offers a new key: the packet to send.
    pub fn trans_s2_to_r1(
        &mut self,
        app: &App,
        rng: &mut OsRng,
        kid_recv: u32,
        s_secret: &App::KeyPair,
        current_time: i64,
    ) -> (r: Result<Packet, ZetaError>)
        requires
            old(self)@.wf(),
            old(self)@.beta is S2 ==> old(self)@.send_counter < u64::MAX,
            kid_recv != 0,
            app.settings_spec().valid(),
            app.settings_spec().reckons_from(current_time),
        ensures
            old(self)@.rekey_offer_handled(
                app.settings_spec(),
                kid_recv,
                *s_secret,
                current_time,
                final(self)@,
                r,
            ),
            final(self)@.wf(),
            r matches Ok(p) ==> p@.payload.len() == REKEY_SIZE,
    {
        match &self.beta {
            ZsspAutomata::S2 => {},
            _ => return Err(ZetaError::OutOfSequence),
        }
        let settings = app.settings();
        let e_secret = App::KeyPair::generate(rng);
        match self.offer_rekey(&settings, kid_recv, s_secret, e_secret, current_time) {
            Some(packet) => Ok(packet),
            None => Err(ZetaError::FailedAuthentication),
        }
    }

    /// Reads the rekeying offer `k1` to the id `kid`.
    pub fn read_rekey(
        &self,
        s_secret: &App::KeyPair,
        kid: u32,
        n: &[u8; AES_GCM_IV_SIZE],
        k1: &Vec<u8>,
    ) -> (r: Result<Rekey<App>, ZetaError>)
        requires
            self@.wf(),
        ensures
            match self@.rekey_read(*s_secret, kid, n@, k1@) {
                Ok(offer) => r matches Ok(o) && o@ == offer,
                Err(e) => r == Err::<Rekey<App>, ZetaError>(e),
            },
    {
        if k1.len() != REKEY_SIZE {
            return Err(ZetaError::FailedAuthentication);
        }
        let keys = self.key_ref(false);
        match keys.recv.kid {
            Some(kid_recv) => {
                if kid_recv != kid {
                    return Err(ZetaError::OutOfSequence);
                }
            },
            None => return Err(ZetaError::OutOfSequence),
        }
        let should_rekey_as_bob = match &self.beta {
            ZsspAutomata::S2 => true,
            ZsspAutomata::R1 { .. } => self.was_bob,
            _ => false,
        };
        if !should_rekey_as_bob {
            return Err(ZetaError::OutOfSequence);
        }
        let inner = match open_packet::<App>(keys.recv.kek.as_ref().unwrap(), n, k1) {
            Some(inner) => inner,
            None => return Err(ZetaError::FailedAuthentication),
        };

        let mut i: usize = 0;
        let mut noise = SymmetricState::<App>::initialize(INITIAL_H_REKEY);
        // Noise process prologue.
        noise.mix_hash(self.s_remote.to_bytes().as_slice());
        noise.mix_hash(s_secret.public_key_bytes().as_slice());
        // Noise process pattern1 psk0 token.
        let first = self.ratchet_states.first.as_ref().unwrap();
        noise.mix_key_and_hash(first.key.as_ref().as_slice());
        // Noise process pattern1 e token.
        let e_remote = match noise.read_e(&mut i, &inner) {
            Ok(key) => key,
            Err(_) => return Err(ZetaError::FailedAuthentication),
        };
        // Noise process pattern1 es token.
        if noise.token_dh(s_secret, &e_remote).is_none() {
            return Err(ZetaError::FailedAuthentication);
        }
        // Noise process pattern1 ss token.
        if noise.token_dh(s_secret, &self.s_remote).is_none() {
            return Err(ZetaError::FailedAuthentication);
        }
        // Noise process pattern1 payload.
        match read_rekey_payload::<App>(&mut noise, PACKET_TYPE_REKEY_INIT, &inner) {
            Some(kid_send) => Ok(Rekey { noise, e_remote, kid_send }),
            None => Err(ZetaError::FailedAuthentication),
        }
    }

    /// Writes the answer to a rekeying offer with the ephemeral key `e_secret`: the state that
    /// it leaves, and what it carries; `None` where no secret can be agreed.
    pub fn write_rekey_answer(
        offer: &Rekey<App>,
        kid_recv: u32,
        s_secret: &App::KeyPair,
        e_secret: &App::KeyPair,
    ) -> (r: Option<(SymmetricState<App>, Vec<u8>)>)
        ensures
            match rekey_answered(offer@, kid_recv, *s_secret, *e_secret) {
                None => r is None,
                Some((noise, inner)) => r matches Some((m, k2)) && m@ == noise && k2@ == inner
                    && k2@.len() == REKEY_END,
            },
    {
        let mut noise = offer.noise.clone();
        let mut k2: Vec<u8> = Vec::new();
        // Noise process pattern2 e token.
        noise.put_e(e_secret, &mut k2);
        assert(k2@ =~= e_secret.public_encoded());
        // Noise process pattern2 ee token.
        if noise.token_dh(e_secret, &offer.e_remote).is_none() {
            return None;
        }
        // Noise process pattern2 se token.
        if noise.token_dh(s_secret, &offer.e_remote).is_none() {
            return None;
        }
        // Noise process pattern2 payload.
        write_rekey_payload::<App>(&mut noise, PACKET_TYPE_REKEY_COMPLETE, kid_recv, &mut k2);
        Some((noise, k2))
    }

    /// Seals the answer to a rekeying offer.
    pub fn seal_rekey_answer(&mut self, inner: Vec<u8>) -> (r: Packet)
        requires
            old(self)@.key(false).send.kek is Some,
            old(self)@.key(false).send.kid is Some,
            old(self)@.send_counter < u64::MAX,
        ensures
            final(self)@ == old(self)@.counted(),
            r@ == old(self)@.rekey_answer_packet(inner@),
            r@.payload.len() == inner@.len() + AES_GCM_TAG_SIZE,
    {
        let mut k2 = inner;
        let c = self.send_counter;
        self.send_counter += 1;
        let n = nonce(PACKET_TYPE_REKEY_COMPLETE, c);
        let keys = self.key_ref(false);
        seal_packet::<App>(keys.send.kek.as_ref().unwrap(), &n, &mut k2);
        Packet(keys.send.kid.unwrap(), n, k2)
    }

    /// The ratchet states once a new key is agreed, with `second` beside the newest one.
    pub fn advance_ratchet(
        &self,
        noise: &SymmetricState<App>,
        second: Option<RatchetState>,
    ) -> (r: RatchetStates)
        requires
            self@.ratchet_states.first is Some,
        ensures
            r@ == self@.ratchet_advanced(noise@, crate::ratchet_state::ratchet_view(second)),
    {
        let (rk, rf) = noise.get_ask(LABEL_RATCHET_STATE);
        let chain_len: u64 = self.ratchet_states.first.as_ref().unwrap().chain_len;
        RatchetStates { first: Some(RatchetState::new_incr(rk, rf, chain_len)), second }
    }

    /// Handles the rekeying offer `k1` to the id `kid`: the answer to send.
    pub fn trans_to_r2(
        &mut self,
        app: &mut App,
        rng: &mut OsRng,
        kid_recv: u32,
        s_secret: &App::KeyPair,
        kid: u32,
        n: [u8; AES_GCM_IV_SIZE],
        k1: Vec<u8>,
        current_time: i64,
    ) -> (r: Result<Packet, ZetaError>)
        requires
            old(self)@.wf(),
            old(self)@.rekey_read(*s_secret, kid, n@, k1@) is Ok ==> old(self)@.send_counter
                < u64::MAX,
            kid_recv != 0,
            old(app).settings_spec().valid(),
            old(app).settings_spec().reckons_from(current_time),
        ensures
            old(self)@.rekey_handled(
                *old(app),
                kid_recv,
                *s_secret,
                kid,
                n@,
                k1@,
                current_time,
                final(self)@,
                *final(app),
                r,
            ),
            final(self)@.wf(),
            final(app).settings_spec() == old(app).settings_spec(),
            r matches Ok(p) ==> p@.payload.len() == REKEY_SIZE,
    {
        let offer = match self.read_rekey(s_secret, kid, &n, &k1) {
            Ok(offer) => offer,
            Err(e) => return Err(e),
        };
        let e_secret = App::KeyPair::generate(rng);
        let (noise, inner) = match Self::write_rekey_answer(
            &offer,
            kid_recv,
            s_secret,
            &e_secret,
        ) {
            Some(written) => written,
            None => return Err(ZetaError::FailedAuthentication),
        };
        let c = self.send_counter;
        let packet = self.seal_rekey_answer(inner);

        let second = clone_ratchet(&self.ratchet_states.first);
        let states = self.advance_ratchet(&noise, second);
        let saved = app.save_ratchet_state(
            &self.s_remote,
            &self.application_data,
            &self.ratchet_states,
            &states,
        );
        if let Err(e) = saved {
            return Err(ZetaError::RatchetIoError(e));
        }
        let (kek_send, kek_recv) = noise.get_ask(LABEL_KEX_KEY);
        let (nk_send, nk_recv) = noise.split();

        let keys = self.key_mut(true);
        keys.send.kid = Some(offer.kid_send);
        keys.send.kek = Some(kek_send);
        keys.send.nk = Some(nk_send);
        keys.recv.kid = Some(kid_recv);
        keys.recv.kek = Some(kek_recv);
        keys.recv.nk = Some(nk_recv);
        self.ratchet_states = states;
        let settings = app.settings();
        self.key_creation_counter = self.send_counter;
        self.timeout_timer = current_time + settings.expiration_timeout_ms;
        self.resend_timer = current_time + settings.retry_interval_ms;
        let k2_copy = part(packet.2.as_slice(), 0, packet.2.len());
        assert(k2_copy@ =~= packet.2@);
        self.beta = ZsspAutomata::R2 { k2: k2_copy, counter: c };
        Ok(packet)
    }

    /// Reads the answer `k2` to the rekeying offer of the session.
    pub fn read_rekey_answer(&self, kid: u32, n: &[u8; AES_GCM_IV_SIZE], k2: &Vec<u8>) -> (r: Result<
        Rekey<App>,
        ZetaError,
    >)
        requires
            self@.wf(),
        ensures
            match self@.rekey_answer_read(kid, n@, k2@) {
                Ok(answer) => r matches Ok(a) && a@ == answer,
                Err(e) => r == Err::<Rekey<App>, ZetaError>(e),
            },
    {
        if k2.len() != REKEY_SIZE {
            return Err(ZetaError::FailedAuthentication);
        }
        let keys = self.key_ref(false);
        match keys.recv.kid {
            Some(kid_recv) => {
                if kid_recv != kid {
                    return Err(ZetaError::OutOfSequence);
                }
            },
            None => return Err(ZetaError::OutOfSequence),
        }
        match &self.beta {
            ZsspAutomata::R1 { noise, e_secret, .. } => {
                let inner = match open_packet::<App>(keys.recv.kek.as_ref().unwrap(), n, k2) {
                    Some(inner) => inner,
                    None => return Err(ZetaError::FailedAuthentication),
                };
                let mut noise = noise.clone();
                let mut i: usize = 0;
                // Noise process pattern2 e token.
                let e_remote = match noise.read_e(&mut i, &inner) {
                    Ok(key) => key,
                    Err(_) => return Err(ZetaError::FailedAuthentication),
                };
                // Noise process pattern2 ee token.
                if noise.token_dh(e_secret, &e_remote).is_none() {
                    return Err(ZetaError::FailedAuthentication);
                }
                // Noise process pattern2 se token.
                if noise.token_dh(e_secret, &self.s_remote).is_none() {
                    return Err(ZetaError::FailedAuthentication);
                }
                // Noise process pattern2 payload.
                match read_rekey_payload::<App>(
                    &mut noise,
                    PACKET_TYPE_REKEY_COMPLETE,
                    &inner,
                ) {
                    Some(kid_send) => Ok(Rekey { noise, e_remote, kid_send }),
                    None => Err(ZetaError::FailedAuthentication),
                }
            },
            _ => Err(ZetaError::OutOfSequence),
        }
    }

    /// Handles the answer `k2` to the rekeying offer of the session: the key confirmation to
    /// send.
    pub fn trans_r1_to_s1(
        &mut self,
        app: &mut App,
        kid: u32,
        n: [u8; AES_GCM_IV_SIZE],
        k2: Vec<u8>,
        current_time: i64,
    ) -> (r: Result<Packet, ZetaError>)
        requires
            old(self)@.wf(),
            old(self)@.rekey_answer_read(kid, n@, k2@) is Ok ==> old(self)@.send_counter
                < u64::MAX,
            old(app).settings_spec().valid(),
            old(app).settings_spec().reckons_from(current_time),
        ensures
            old(self)@.rekey_completed(
                *old(app),
                kid,
                n@,
                k2@,
                current_time,
                final(self)@,
                *final(app),
                r,
            ),
            final(self)@.wf(),
            final(app).settings_spec() == old(app).settings_spec(),
            r matches Ok(p) ==> p@.payload.len() == KEY_CONFIRMATION_SIZE,
    {
        let answer = match self.read_rekey_answer(kid, &n, &k2) {
            Ok(answer) => answer,
            Err(e) => return Err(e),
        };
        let new_states = self.advance_ratchet(&answer.noise, None);
        let saved = app.save_ratchet_state(
            &self.s_remote,
            &self.application_data,
            &self.ratchet_states,
            &new_states,
        );
        if let Err(e) = saved {
            return Err(ZetaError::RatchetIoError(e));
        }
        let (kek_recv, kek_send) = answer.noise.get_ask(LABEL_KEX_KEY);
        let (nk_recv, nk_send) = answer.noise.split();

        let c = self.send_counter;
        let n = nonce(PACKET_TYPE_KEY_CONFIRM, c);
        let c1 = seal_control::<App>(&kek_send, &n);

        let keys = self.key_mut(true);
        keys.send.kid = Some(answer.kid_send);
        keys.send.kek = Some(kek_send);
        keys.send.nk = Some(nk_send);
        keys.recv.kek = Some(kek_recv);
        keys.recv.nk = Some(nk_recv);
        self.ratchet_states.first = new_states.first;
        self.key_index = !self.key_index;
        let settings = app.settings();
        self.key_creation_counter = self.send_counter;
        self.timeout_timer = current_time + settings.expiration_timeout_ms;
        self.resend_timer = current_time + settings.retry_interval_ms;
        self.beta = ZsspAutomata::S1;
        self.send_counter += 1;

        Ok(Packet(answer.kid_send, n, c1))
    }
}

} // verus!
