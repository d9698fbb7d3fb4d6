//! The third message of the handshake: the completion that an initiator sends once it has the
//! response of the responder.

use vstd::prelude::*;

use crate::application::{ApplicationLayer, RatchetStates, RatchetStatesView, Settings};
use crate::bytes::{append, array_at, part, same};
use crate::crypto::{P384KeyPair, P384PublicKey};
use crate::kyber::{kyber_decapsulate, kyber_decapsulated};
use crate::proto::{
    u32_from_be_bytes, u32_of_be, u64_be, u64_to_be_bytes, AES_GCM_TAG_SIZE,
    HANDSHAKE_COMPLETION_MIN_SIZE, HANDSHAKE_RESPONSE_SIZE, KYBER_CIPHERTEXTBYTES, LABEL_KEX_KEY,
    LABEL_RATCHET_STATE, P384_PUBLIC_KEY_SIZE, PACKET_TYPE_HANDSHAKE_COMPLETION,
    PACKET_TYPE_HANDSHAKE_RESPONSE, RATCHET_SIZE, SESSION_ID_SIZE,
};
use crate::ratchet_state::{
    clone_ratchet, empty_ratchet, next_ratchet, RatchetState, RatchetView,
};
use crate::result::ZetaError;
use crate::symmetric_state::{Noise, SymmetricState};
use crate::zeta::{
    nonce, nonce_spec, BetaView, DualKeysView, KeysView, Packet, PacketView, Zeta, ZetaView,
    ZsspAutomata,
};

verus! {

/// Where the encrypted Kyber ciphertext of a response ends.
pub const RESPONSE_EKEM1_END: usize = P384_PUBLIC_KEY_SIZE + KYBER_CIPHERTEXTBYTES;

/// Where the encrypted id of a response starts.
pub const RESPONSE_PAYLOAD_START: usize = RESPONSE_EKEM1_END + AES_GCM_TAG_SIZE;

/// Where the encrypted id of a response ends.
pub const RESPONSE_PAYLOAD_END: usize = RESPONSE_PAYLOAD_START + SESSION_ID_SIZE;

/// What an initiator has read from a response before it knows the ratchet key: the state of
/// the handshake, the ephemeral key of the responder, and the id that is still encrypted.
pub struct Response<App: ApplicationLayer> {
    pub noise: SymmetricState<App>,
    pub e_remote: App::PublicKey,
    pub payload: Vec<u8>,
    pub tag: [u8; AES_GCM_TAG_SIZE],
}

/// What an initiator has read from a response before it knows the ratchet key.
pub struct ResponseView<App: ApplicationLayer> {
    pub noise: Noise,
    pub e_remote: App::PublicKey,
    pub payload: Seq<u8>,
    pub tag: Seq<u8>,
}

impl<App: ApplicationLayer> View for Response<App> {
    type V = ResponseView<App>;

    open spec fn view(&self) -> ResponseView<App> {
        ResponseView {
            noise: self.noise@,
            e_remote: self.e_remote,
            payload: self.payload@,
            tag: self.tag@,
        }
    }
}

/// What the initiator `zeta` reads from the response `x2` that came to the id `kid` with the
/// counter `c`, or `None` where it does not authenticate.
pub open spec fn response_read<App: ApplicationLayer>(
    zeta: ZetaView<App>,
    kid: u32,
    c: u64,
    x2: Seq<u8>,
) -> Option<ResponseView<App>> {
    if x2.len() != HANDSHAKE_RESPONSE_SIZE || zeta.key(true).recv.kid != Some(kid) {
        None
    } else if c >= 0x100_0000 || u64_be(c).subrange(5, 8) != x2.subrange(
        x2.len() - 3,
        x2.len() as int,
    ) {
        None
    } else {
        match zeta.beta {
            BetaView::A1 { noise, e_secret, e1_secret, .. } => {
                let e_public = x2.subrange(0, P384_PUBLIC_KEY_SIZE as int);
                match App::PublicKey::decoded(e_public) {
                    None => None,
                    Some(e_remote) => match e_secret.shared(e_remote) {
                        None => None,
                        Some(ee) => {
                            let n0 = noise.mix_e::<App>(e_public).mix_key::<App>(ee);
                            match n0.opened::<App>(
                                nonce_spec(PACKET_TYPE_HANDSHAKE_RESPONSE, 0),
                                x2.subrange(
                                    P384_PUBLIC_KEY_SIZE as int,
                                    RESPONSE_EKEM1_END as int,
                                ),
                                x2.subrange(
                                    RESPONSE_EKEM1_END as int,
                                    RESPONSE_PAYLOAD_START as int,
                                ),
                            ) {
                                None => None,
                                Some(ekem1) => match kyber_decapsulated(ekem1, e1_secret) {
                                    None => None,
                                    Some(ekem1_secret) => Some(
                                        ResponseView {
                                            noise: n0.mix_hash::<App>(
                                                x2.subrange(
                                                    P384_PUBLIC_KEY_SIZE as int,
                                                    RESPONSE_PAYLOAD_START as int,
                                                ),
                                            ).mix_key::<App>(ekem1_secret),
                                            e_remote,
                                            payload: x2.subrange(
                                                RESPONSE_PAYLOAD_START as int,
                                                RESPONSE_PAYLOAD_END as int,
                                            ),
                                            tag: x2.subrange(
                                                RESPONSE_PAYLOAD_END as int,
                                                x2.len() as int,
                                            ),
                                        },
                                    ),
                                },
                            }
                        },
                    },
                }
            },
            _ => None,
        }
    }
}

/// The id that a response carries under a ratchet key, and the state of the
/// handshake thereafter; `None` where the key does not authenticate an id, or the id is zero.
pub open spec fn kid_opened<App: ApplicationLayer>(
    response: ResponseView<App>,
    ratchet_key: Seq<u8>,
) -> Option<(u32, Noise)> {
    let n = response.noise.mix_key_and_hash::<App>(ratchet_key);
    match n.opened::<App>(
        nonce_spec(PACKET_TYPE_HANDSHAKE_RESPONSE, 0),
        response.payload,
        response.tag,
    ) {
        None => None,
        Some(kid) => if u32_of_be(kid) == 0 {
            None
        } else {
            Some((u32_of_be(kid), n.mix_hash::<App>(response.payload + response.tag)))
        },
    }
}

/// The ratchet key that a responder has turned out to use.
pub struct Choice<App: ApplicationLayer> {
    /// The id of the responder.
    pub kid: u32,
    pub noise: SymmetricState<App>,
    /// The length of the chain that the key stands in.
    pub chain_len: u64,
    /// The state to keep beside the one that follows.
    pub preserve: Option<RatchetState>,
    /// The responder did not use a key that the initiator remembers.
    pub downgraded: bool,
}

/// The ratchet key that a responder has turned out to use.
pub struct ChoiceView {
    pub kid: u32,
    pub noise: Noise,
    pub chain_len: u64,
    pub preserve: Option<RatchetView>,
    pub downgraded: bool,
}

impl<App: ApplicationLayer> View for Choice<App> {
    type V = ChoiceView;

    open spec fn view(&self) -> ChoiceView {
        ChoiceView {
            kid: self.kid,
            noise: self.noise@,
            chain_len: self.chain_len,
            preserve: crate::ratchet_state::ratchet_view(self.preserve),
            downgraded: self.downgraded,
        }
    }
}

/// The choice that a ratchet state leads to, where its key authenticates the response.
pub open spec fn choice_of<App: ApplicationLayer>(
    response: ResponseView<App>,
    state: Option<RatchetView>,
) -> Option<ChoiceView> {
    match state {
        None => None,
        Some(s) => match kid_opened(response, s.key) {
            None => None,
            Some((kid, noise)) => Some(
                ChoiceView {
                    kid,
                    noise,
                    chain_len: s.chain_len,
                    preserve: state,
                    downgraded: false,
                },
            ),
        },
    }
}

/// The choice among the ratchet states that the initiator remembers: the first one, if its key
/// authenticates the response, or else the second one, if its key does.
pub open spec fn remembered_choice<App: ApplicationLayer>(
    response: ResponseView<App>,
    states: RatchetStatesView,
) -> Option<ChoiceView> {
    match choice_of(response, states.first) {
        Some(choice) => Some(choice),
        None => choice_of(response, states.second),
    }
}

/// The choice of the all-zero ratchet key, if it authenticates the response. The chain then
/// starts over, and of the states that the initiator remembers the second one is kept.
pub open spec fn downgraded_choice<App: ApplicationLayer>(
    response: ResponseView<App>,
    states: RatchetStatesView,
) -> Option<ChoiceView> {
    match kid_opened(response, empty_ratchet().key) {
        None => None,
        Some((kid, noise)) => Some(
            ChoiceView { kid, noise, chain_len: 0, preserve: states.second, downgraded: true },
        ),
    }
}

/// The state that a completion leaves an initiator in, and the completion: its sealed static
/// key and its sealed identity.
pub open spec fn completion<App: ApplicationLayer>(
    noise: Noise,
    s_public: Seq<u8>,
    se: Seq<u8>,
    identity: Seq<u8>,
) -> (Noise, Seq<u8>) {
    let s = noise.sealed::<App>(nonce_spec(PACKET_TYPE_HANDSHAKE_COMPLETION, 1), s_public);
    let n1 = noise.mix_hash::<App>(s).mix_key::<App>(se);
    let payload = n1.sealed::<App>(nonce_spec(PACKET_TYPE_HANDSHAKE_COMPLETION, 0), identity);
    (n1.mix_hash::<App>(payload), s + payload)
}

/// The ratchet states of an initiator that has sent a completion.
pub open spec fn states_after<App: ApplicationLayer>(
    noise: Noise,
    choice: ChoiceView,
) -> RatchetStatesView {
    let rk = noise.ask::<App>(LABEL_RATCHET_STATE@);
    RatchetStatesView {
        first: Some(next_ratchet(rk.0, rk.1, choice.chain_len)),
        second: choice.preserve,
    }
}

/// The session `zeta` after it has sent the completion `x3`.
pub open spec fn a3_session<App: ApplicationLayer>(
    zeta: ZetaView<App>,
    settings: Settings,
    noise: Noise,
    states: RatchetStatesView,
    kid_send: u32,
    x3: Seq<u8>,
    current_time: i64,
) -> ZetaView<App> {
    let kek = noise.ask::<App>(LABEL_KEX_KEY@);
    let nk = noise.split::<App>();
    let keys = DualKeysView {
        send: KeysView { kek: Some(kek.1), nk: Some(nk.1), kid: Some(kid_send) },
        recv: KeysView { kek: Some(kek.0), nk: Some(nk.0), kid: zeta.key(true).recv.kid },
    };
    ZetaView {
        ratchet_states: states,
        key_creation_counter: zeta.send_counter,
        resend_timer: (current_time + settings.retry_interval_ms) as i64,
        timeout_timer: (current_time + settings.initial_offer_timeout_ms) as i64,
        beta: BetaView::A3 { x3 },
        ..zeta.with_key(true, keys)
    }
}

/// The packet that carries the completion `x3`.
pub open spec fn completion_packet(kid_send: u32, x3: Seq<u8>) -> PacketView {
    PacketView {
        kid: kid_send,
        nonce: nonce_spec(PACKET_TYPE_HANDSHAKE_COMPLETION, 0),
        payload: x3,
    }
}

/// `after` and `r` may be what comes of a response under `choice`, and `app_after` what becomes of
/// the application. The new ratchet state is stored before the session takes up the new keys.
pub open spec fn response_completed<App: ApplicationLayer>(
    app: App,
    settings: Settings,
    zeta: ZetaView<App>,
    response: ResponseView<App>,
    choice: ChoiceView,
    s_secret: App::KeyPair,
    identity: Seq<u8>,
    current_time: i64,
    after: ZetaView<App>,
    app_after: App,
    r: Result<(Packet, bool), ZetaError>,
) -> bool {
    match s_secret.shared(response.e_remote) {
        None => after == zeta && app_after == app && r matches Err(
            ZetaError::FailedAuthentication,
        ),
        Some(se) => {
            let (noise, x3) = completion::<App>(
                choice.noise,
                s_secret.public_encoded(),
                se,
                identity,
            );
            let states = states_after::<App>(noise, choice);
            exists|saved: Result<(), std::io::Error>|
                {
                    &&& #[trigger] app.may_save_ratchet_state(
                        zeta.s_remote,
                        zeta.application_data,
                        zeta.ratchet_states,
                        states,
                        saved,
                        app_after,
                    )
                    &&& match saved {
                        Err(e) => after == zeta && r == Err::<(Packet, bool), ZetaError>(
                            ZetaError::RatchetIoError(e),
                        ),
                        Ok(_) => {
                            &&& after == a3_session(
                                zeta,
                                settings,
                                noise,
                                states,
                                choice.kid,
                                x3,
                                current_time,
                            )
                            &&& r matches Ok((p, downgraded))
                            &&& p@ == completion_packet(choice.kid, x3)
                            &&& downgraded == choice.downgraded
                        },
                    }
                }
        },
    }
}

/// `after` and `r` may be what comes of the response `x2` that came to the id `kid` with the
/// counter `c`, and `app_after` what becomes of the application. It is asked nothing before the
/// response is authentic, and whether a downgrade is disallowed only where it comes to that.
pub open spec fn response_handled<App: ApplicationLayer>(
    app: App,
    zeta: ZetaView<App>,
    kid: u32,
    c: u64,
    x2: Seq<u8>,
    s_secret: App::KeyPair,
    identity: Seq<u8>,
    current_time: i64,
    after: ZetaView<App>,
    app_after: App,
    r: Result<(Packet, bool), ZetaError>,
) -> bool {
    match response_read(zeta, kid, c, x2) {
        None => after == zeta && app_after == app && r matches Err(
            ZetaError::FailedAuthentication,
        ),
        Some(response) => match remembered_choice(response, zeta.ratchet_states) {
            Some(choice) => response_completed(
                app,
                app.settings_spec(),
                zeta,
                response,
                choice,
                s_secret,
                identity,
                current_time,
                after,
                app_after,
                r,
            ),
            None => exists|disallowed: bool, next: App|
                {
                    &&& #[trigger] app.may_disallow_downgrade(disallowed, next)
                    &&& match (if disallowed {
                        None
                    } else {
                        downgraded_choice(response, zeta.ratchet_states)
                    }) {
                        None => after == zeta && app_after == next && r matches Err(
                            ZetaError::FailedAuthentication,
                        ),
                        Some(choice) => response_completed(
                            next,
                            app.settings_spec(),
                            zeta,
                            response,
                            choice,
                            s_secret,
                            identity,
                            current_time,
                            after,
                            app_after,
                            r,
                        ),
                    }
                },
        },
    }
}

impl<App: ApplicationLayer> Response<App> {
    /// Opens the id of the responder under a ratchet key.
    fn open_kid(&self, ratchet_key: &[u8]) -> (r: Option<
        (u32, SymmetricState<App>),
    >)
        requires
            self.payload@.len() == SESSION_ID_SIZE,
        ensures
            match kid_opened(self@, ratchet_key@) {
                None => r is None,
                Some((kid, noise)) => r matches Some((k, n)) && k == kid && n@ == noise,
            },
    {
        let mut noise = self.noise.clone();
        let mut payload = part(self.payload.as_slice(), 0, self.payload.len());
        assert(payload@ =~= self.payload@);
        // Noise process pattern2 psk token.
        noise.mix_key_and_hash(ratchet_key);
        // Noise process pattern2 payload.
        if !noise.decrypt_and_hash(
            nonce(PACKET_TYPE_HANDSHAKE_RESPONSE, 0),
            &mut payload,
            self.tag,
        ) {
            return None;
        }
        let kid = u32_from_be_bytes(payload.as_slice());
        if kid == 0 {
            return None;
        }
        Some((kid, noise))
    }

    /// Tries the key of a ratchet state.
    fn try_state(&self, state: &Option<RatchetState>) -> (r: Option<Choice<App>>)
        requires
            self.payload@.len() == SESSION_ID_SIZE,
        ensures
            match choice_of(self@, crate::ratchet_state::ratchet_view(*state)) {
                None => r is None,
                Some(choice) => r matches Some(c) && c@ == choice,
            },
    {
        match state {
            None => None,
            Some(s) => match self.open_kid(s.key.as_ref().as_slice()) {
                None => None,
                Some((kid, noise)) => Some(
                    Choice {
                        kid,
                        noise,
                        chain_len: s.chain_len,
                        preserve: Some(s.clone()),
                        downgraded: false,
                    },
                ),
            },
        }
    }

    /// Tries the keys of the ratchet states that the initiator remembers.
    pub fn try_remembered(&self, states: &RatchetStates) -> (r: Option<Choice<App>>)
        requires
            self.payload@.len() == SESSION_ID_SIZE,
        ensures
            match remembered_choice(self@, states@) {
                None => r is None,
                Some(choice) => r matches Some(c) && c@ == choice,
            },
    {
        // Check first key.
        match self.try_state(&states.first) {
            Some(choice) => Some(choice),
            // Check second key.
            None => self.try_state(&states.second),
        }
    }

    /// Tries the all-zero ratchet key.
    pub fn try_downgraded(&self, states: &RatchetStates) -> (r: Option<Choice<App>>)
        requires
            self.payload@.len() == SESSION_ID_SIZE,
        ensures
            match downgraded_choice(self@, states@) {
                None => r is None,
                Some(choice) => r matches Some(c) && c@ == choice,
            },
    {
        let zero: [u8; RATCHET_SIZE] = [0u8; RATCHET_SIZE];
        assert(zero@ =~= empty_ratchet().key);
        match self.open_kid(zero.as_slice()) {
            None => None,
            Some((kid, noise)) => Some(
                Choice {
                    kid,
                    noise,
                    chain_len: 0,
                    preserve: clone_ratchet(&states.second),
                    downgraded: true,
                },
            ),
        }
    }
}

impl<App: ApplicationLayer> Zeta<App> {
    /// Reads the response `x2` that came to the id `kid` with the counter `c`, or returns
    /// `None` where it does not authenticate.
    pub fn read_response(&self, kid: u32, c: u64, x2: &Vec<u8>) -> (r: Option<Response<App>>)
        ensures
            match response_read(self@, kid, c, x2@) {
                None => r is None,
                Some(response) => r matches Some(s) && s@ == response && s.payload@.len()
                    == SESSION_ID_SIZE,
            },
    {
        if x2.len() != HANDSHAKE_RESPONSE_SIZE {
            return None;
        }
        match self.key_ref(true).recv.kid {
            Some(kid_recv) => {
                if kid_recv != kid {
                    return None;
                }
            },
            None => return None,
        }
        let len: usize = x2.len();
        let counter = u64_to_be_bytes(c);
        if c >= 0x100_0000 || !same(
            vstd::slice::slice_subrange(counter.as_slice(), 5, 8),
            vstd::slice::slice_subrange(x2.as_slice(), len - 3, len),
        ) {
            return None;
        }
        match &self.beta {
            ZsspAutomata::A1 { noise, e_secret, e1_secret, .. } => {
                let mut noise = noise.clone();
                let mut i: usize = 0;
                // X2 process e token.
                let e_remote = match noise.read_e(&mut i, x2) {
                    Ok(key) => key,
                    Err(_) => return None,
                };
                // X2 process ee token.
                if noise.token_dh(e_secret, &e_remote).is_none() {
                    return None;
                }
                // Noise process pattern2 ekem1 token.
                let mut ekem1 = part(x2.as_slice(), P384_PUBLIC_KEY_SIZE, RESPONSE_EKEM1_END);
                let tag = array_at::<AES_GCM_TAG_SIZE>(x2.as_slice(), RESPONSE_EKEM1_END);
                assert(ekem1@ + tag@ =~= x2@.subrange(
                    P384_PUBLIC_KEY_SIZE as int,
                    RESPONSE_PAYLOAD_START as int,
                ));
                if !noise.decrypt_and_hash(
                    nonce(PACKET_TYPE_HANDSHAKE_RESPONSE, 0),
                    &mut ekem1,
                    tag,
                ) {
                    return None;
                }
                let ekem1_secret = match kyber_decapsulate(ekem1.as_slice(), e1_secret) {
                    Some(secret) => secret,
                    None => return None,
                };
                noise.mix_key(ekem1_secret.as_ref().as_slice());
                let payload = part(x2.as_slice(), RESPONSE_PAYLOAD_START, RESPONSE_PAYLOAD_END);
                let tag = array_at::<AES_GCM_TAG_SIZE>(x2.as_slice(), RESPONSE_PAYLOAD_END);
                Some(Response { noise, e_remote, payload, tag })
            },
            _ => None,
        }
    }

    /// Writes the completion of the handshake: the state it leaves, and the completion; `None`
    /// where no secret can be agreed with the ephemeral key of the responder.
    pub fn write_completion(
        noise: SymmetricState<App>,
        e_remote: &App::PublicKey,
        s_secret: &App::KeyPair,
        identity: &[u8],
    ) -> (r: Option<(SymmetricState<App>, Vec<u8>)>)
        ensures
            match s_secret.shared(*e_remote) {
                None => r is None,
                Some(se) => r matches Some((n, x3)) && (n@, x3@) == completion::<App>(
                    noise@,
                    s_secret.public_encoded(),
                    se,
                    identity@,
                ) && x3@.len() == HANDSHAKE_COMPLETION_MIN_SIZE + identity@.len(),
            },
    {
        let mut noise = noise;
        let mut x3: Vec<u8> = Vec::new();
        // Noise process pattern3 s token.
        append(&mut x3, s_secret.public_key_bytes().as_slice());
        assert(x3@.subrange(0, x3@.len() as int) =~= s_secret.public_encoded());
        noise.encrypt_and_hash(nonce(PACKET_TYPE_HANDSHAKE_COMPLETION, 1), 0, &mut x3);
        let ghost s = x3@;
        // Noise process pattern3 se token.
        if noise.token_dh(s_secret, e_remote).is_none() {
            return None;
        }
        // Noise process pattern3 payload token.
        let i: usize = x3.len();
        append(&mut x3, identity);
        assert(x3@.subrange(i as int, x3@.len() as int) =~= identity@);
        assert(x3@.subrange(0, i as int) =~= s);
        noise.encrypt_and_hash(nonce(PACKET_TYPE_HANDSHAKE_COMPLETION, 0), i, &mut x3);
        Some((noise, x3))
    }

    /// Takes up the keys of a completed handshake: the packet that carries the completion.
    pub fn commit_completion(
        &mut self,
        settings: &Settings,
        noise: &SymmetricState<App>,
        states: RatchetStates,
        kid_send: u32,
        x3: Vec<u8>,
        current_time: i64,
    ) -> (r: Packet)
        requires
            settings.valid(),
            settings.reckons_from(current_time),
        ensures
            final(self)@ == a3_session(
                old(self)@,
                *settings,
                noise@,
                states@,
                kid_send,
                x3@,
                current_time,
            ),
            r@ == completion_packet(kid_send, x3@),
    {
        let (kek_recv, kek_send) = noise.get_ask(LABEL_KEX_KEY);
        let (nk_recv, nk_send) = noise.split();

        let keys = self.key_mut(true);
        keys.send.kid = Some(kid_send);
        keys.send.kek = Some(kek_send);
        keys.send.nk = Some(nk_send);
        keys.recv.kek = Some(kek_recv);
        keys.recv.nk = Some(nk_recv);
        self.ratchet_states = states;
        self.key_creation_counter = self.send_counter;
        self.resend_timer = current_time + settings.retry_interval_ms;
        self.timeout_timer = current_time + settings.initial_offer_timeout_ms;
        let x3_copy = part(x3.as_slice(), 0, x3.len());
        assert(x3_copy@ =~= x3@);
        self.beta = ZsspAutomata::A3 { x3: x3_copy };
        Packet(kid_send, nonce(PACKET_TYPE_HANDSHAKE_COMPLETION, 0), x3)
    }

    /// Handles the response `x2` that came to the id `kid` with the counter `c`: the completion
    /// to send, and whether the responder did not use a ratchet key that is remembered. Where
    /// an error comes back the session stays as it was.
    pub fn trans_a1_to_a3(
        &mut self,
        app: &mut App,
        kid: u32,
        c: u64,
        x2: Vec<u8>,
        s_secret: &App::KeyPair,
        identity: &[u8],
        current_time: i64,
    ) -> (r: Result<(Packet, bool), ZetaError>)
        requires
            old(self)@.wf(),
            old(app).settings_spec().valid(),
            old(app).settings_spec().reckons_from(current_time),
        ensures
            response_handled(
                *old(app),
                old(self)@,
                kid,
                c,
                x2@,
                *s_secret,
                identity@,
                current_time,
                final(self)@,
                *final(app),
                r,
            ),
            final(self)@.wf(),
            final(app).settings_spec() == old(app).settings_spec(),
            r matches Ok((p, d)) ==> p@.payload.len() == HANDSHAKE_COMPLETION_MIN_SIZE
                + identity@.len(),
    {
        let response = match self.read_response(kid, c, &x2) {
            Some(response) => response,
            None => return Err(ZetaError::FailedAuthentication),
        };
        // Check for which ratchet key Bob wants to use. The following code is not constant
        // time, meaning we leak to an attacker whether or not we downgraded.
        // We don't currently consider this sensitive enough information to hide.
        let choice = match response.try_remembered(&self.ratchet_states) {
            Some(choice) => choice,
            None => {
                let disallowed = app.initiator_disallows_downgrade();
                assert(old(app).may_disallow_downgrade(disallowed, *app));
                if disallowed {
                    return Err(ZetaError::FailedAuthentication);
                }
                match response.try_downgraded(&self.ratchet_states) {
                    Some(choice) => choice,
                    None => return Err(ZetaError::FailedAuthentication),
                }
            },
        };
        let ghost chosen = choice@;
        let ghost asked = *app;
        assert(chosen.kid != 0);
        let (noise, x3) = match Self::write_completion(
            choice.noise,
            &response.e_remote,
            s_secret,
            identity,
        ) {
            Some(written) => written,
            None => return Err(ZetaError::FailedAuthentication),
        };

        let (rk, rf) = noise.get_ask(LABEL_RATCHET_STATE);
        let states = RatchetStates {
            first: Some(RatchetState::new_incr(rk, rf, choice.chain_len)),
            second: choice.preserve,
        };
        assert(states@ == states_after::<App>(noise@, chosen));
        let saved = app.save_ratchet_state(
            &self.s_remote,
            &self.application_data,
            &self.ratchet_states,
            &states,
        );
        assert(asked.may_save_ratchet_state(
            self@.s_remote,
            self@.application_data,
            self@.ratchet_states,
            states@,
            saved,
            *app,
        ));
        if let Err(e) = saved {
            return Err(ZetaError::RatchetIoError(e));
        }
        let settings = app.settings();
        let packet = self.commit_completion(
            &settings,
            &noise,
            states,
            choice.kid,
            x3,
            current_time,
        );
        let r = Ok((packet, choice.downgraded));
        assert(response_completed(
            asked,
            old(app).settings_spec(),
            old(self)@,
            response@,
            chosen,
            *s_secret,
            identity@,
            current_time,
            self@,
            *app,
            r,
        ));
        r
    }
}

} // verus!
