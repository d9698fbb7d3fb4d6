//! The first two messages of the handshake: the hello of an initiator, and the response of a
//! responder.

use rand_core::OsRng;
use vstd::prelude::*;

use crate::application::{ApplicationLayer, RatchetStates, RatchetStatesView, Settings};
use crate::bytes::{append, array_at, part};
use crate::crypto::{P384KeyPair, P384PublicKey};
use crate::kyber::{
    is_encapsulation, is_kyber_pair, kyber_encapsulate, kyber_keypair, KyberKeypair,
};
use crate::proto::{
    u32_be, u32_from_be_bytes, u32_of_be, u32_to_be_bytes, u64_from_be_bytes, u64_of_be,
    AES_GCM_TAG_SIZE, HANDSHAKE_HELLO_MAX_SIZE, HANDSHAKE_HELLO_MIN_SIZE, HANDSHAKE_RESPONSE_SIZE,
    INITIAL_H, KYBER_CIPHERTEXTBYTES, KYBER_PUBLICKEYBYTES, KYBER_SECRETKEYBYTES, LABEL_HEADER_KEY,
    P384_PUBLIC_KEY_SIZE, PACKET_TYPE_HANDSHAKE_HELLO, PACKET_TYPE_HANDSHAKE_RESPONSE,
    RATCHET_SIZE, SESSION_ID_SIZE,
};
use crate::ratchet_state::{empty_ratchet, RatchetState, RatchetView};
use crate::result::{OpenError, ZetaError};
use crate::secret::Secret;
use crate::symmetric_state::{Noise, SymmetricState};
use crate::zeta::{
    no_keys, nonce, nonce_spec, BetaView, DualKeys, DualKeysView, Keys, KeysView, Packet,
    PacketView, Zeta, ZetaView, ZsspAutomata,
};

verus! {

/// The fingerprint of a ratchet state, or nothing where it has none.
pub open spec fn fingerprint_bytes(s: Option<RatchetView>) -> Seq<u8> {
    match s {
        Some(RatchetView { fingerprint: Some(rf), .. }) => rf,
        _ => seq![],
    }
}

/// The fingerprints that an initiator offers.
pub open spec fn offered_fingerprints(states: RatchetStatesView) -> Seq<u8> {
    fingerprint_bytes(states.first) + fingerprint_bytes(states.second)
}

/// The state of both peers once the ephemeral key of a hello is agreed: `kid` is the id of the
/// initiator, `s_public` the static key of the responder, `es` the secret of the two keys.
pub open spec fn hello_start<App: ApplicationLayer>(
    kid: Seq<u8>,
    s_public: Seq<u8>,
    e_public: Seq<u8>,
    es: Seq<u8>,
) -> Noise {
    Noise::initial(INITIAL_H@).mix_hash::<App>(kid).mix_hash::<App>(s_public).mix_e::<App>(
        e_public,
    ).mix_key::<App>(es)
}

/// The state that a hello leaves an initiator in, and the hello: its id, its ephemeral key, its
/// sealed Kyber key, and its sealed fingerprints.
pub open spec fn hello<App: ApplicationLayer>(
    kid: u32,
    s_public: Seq<u8>,
    e_public: Seq<u8>,
    es: Seq<u8>,
    e1_public: Seq<u8>,
    fingerprints: Seq<u8>,
) -> (Noise, Seq<u8>) {
    let n0 = hello_start::<App>(u32_be(kid), s_public, e_public, es);
    let e1 = n0.sealed::<App>(nonce_spec(PACKET_TYPE_HANDSHAKE_HELLO, 0), e1_public);
    let n1 = n0.mix_hash::<App>(e1);
    let payload = n1.sealed::<App>(nonce_spec(PACKET_TYPE_HANDSHAKE_HELLO, 1), fingerprints);
    (n1.mix_hash::<App>(payload), u32_be(kid) + e_public + e1 + payload)
}

/// The counter that a hello is sent with: its last eight bytes.
pub open spec fn hello_counter(x1: Seq<u8>) -> u64 {
    u64_of_be(x1.subrange(x1.len() - 8, x1.len() as int))
}

/// A session that has sent a hello with these keys, and the packet that carries the hello;
/// `None` where no secret can be agreed with the static key of the remote peer.
pub open spec fn opened_session<App: ApplicationLayer>(
    settings: Settings,
    kid_recv: u32,
    s_remote: App::PublicKey,
    application_data: App::Data,
    states: RatchetStatesView,
    e_secret: App::KeyPair,
    e1_public: Seq<u8>,
    e1_secret: Seq<u8>,
    current_time: i64,
) -> Option<(ZetaView<App>, PacketView)> {
    match e_secret.shared(s_remote) {
        None => None,
        Some(es) => {
            let (noise, x1) = hello::<App>(
                kid_recv,
                s_remote.encoded(),
                e_secret.public_encoded(),
                es,
                e1_public,
                offered_fingerprints(states),
            );
            let hk = noise.ask::<App>(LABEL_HEADER_KEY@);
            let keys = DualKeysView {
                send: no_keys(),
                recv: KeysView { kek: None, nk: None, kid: Some(kid_recv) },
            };
            Some(
                (
                    ZetaView {
                        application_data,
                        was_bob: false,
                        s_remote,
                        send_counter: 0,
                        key_creation_counter: 0,
                        key_index: true,
                        keys: (keys, DualKeysView { send: no_keys(), recv: no_keys() }),
                        ratchet_states: states,
                        hk_recv: hk.0,
                        hk_send: hk.1,
                        resend_timer: (current_time + settings.retry_interval_ms) as i64,
                        timeout_timer: (current_time + settings.expiration_timeout_ms) as i64,
                        beta: BetaView::A1 { noise, e_secret, e1_secret, x1 },
                    },
                    PacketView {
                        kid: 0,
                        nonce: nonce_spec(PACKET_TYPE_HANDSHAKE_HELLO, hello_counter(x1)),
                        payload: x1,
                    },
                ),
            )
        },
    }
}

/// `r` may be what comes of opening a session with the holder of `s_remote`, and `app_after` what
/// becomes of the application.
pub open spec fn session_opened<App: ApplicationLayer>(
    app: App,
    kid_recv: u32,
    s_remote: App::PublicKey,
    application_data: App::Data,
    current_time: i64,
    app_after: App,
    r: Result<(Zeta<App>, Packet), OpenError>,
) -> bool {
    exists|restored: Result<RatchetStates, std::io::Error>|
        {
            &&& #[trigger] app.may_restore_by_identity(
                s_remote,
                application_data,
                restored,
                app_after,
            )
            &&& match restored {
                Err(e) => r == Err::<(Zeta<App>, Packet), OpenError>(OpenError::StorageError(e)),
                Ok(states) => exists|
                    e_secret: App::KeyPair,
                    e1_public: Seq<u8>,
                    e1_secret: Seq<u8>,
                |
                    {
                        &&& e_secret.may_generate()
                        &&& is_kyber_pair(e1_public, e1_secret)
                        &&& e1_public.len() == KYBER_PUBLICKEYBYTES
                        &&& e1_secret.len() == KYBER_SECRETKEYBYTES
                        &&& match #[trigger] opened_session::<App>(
                            app.settings_spec(),
                            kid_recv,
                            s_remote,
                            application_data,
                            states@,
                            e_secret,
                            e1_public,
                            e1_secret,
                            current_time,
                        ) {
                            None => r matches Err(OpenError::InvalidPublicKey),
                            Some((zeta, packet)) => r matches Ok((z, p)) && z@ == zeta && p@
                                == packet,
                        }
                    },
            }
        }
}

/// What a responder has read from a hello.
pub struct Hello<App: ApplicationLayer> {
    pub noise: SymmetricState<App>,
    pub kid_send: u32,
    pub e_remote: App::PublicKey,
    pub e1: Vec<u8>,
    pub fingerprints: Vec<u8>,
}

/// What a responder has read from a hello.
pub struct HelloView<App: ApplicationLayer> {
    pub noise: Noise,
    pub kid_send: u32,
    pub e_remote: App::PublicKey,
    pub e1: Seq<u8>,
    pub fingerprints: Seq<u8>,
}

impl<App: ApplicationLayer> View for Hello<App> {
    type V = HelloView<App>;

    open spec fn view(&self) -> HelloView<App> {
        HelloView {
            noise: self.noise@,
            kid_send: self.kid_send,
            e_remote: self.e_remote,
            e1: self.e1@,
            fingerprints: self.fingerprints@,
        }
    }
}

/// Where the ephemeral key of a hello ends.
pub const HELLO_E_END: usize = SESSION_ID_SIZE + P384_PUBLIC_KEY_SIZE;

/// Where the encrypted Kyber key of a hello ends.
pub const HELLO_E1_END: usize = HELLO_E_END + KYBER_PUBLICKEYBYTES;

/// Where the encrypted fingerprints of a hello start.
pub const HELLO_PAYLOAD_START: usize = HELLO_E1_END + AES_GCM_TAG_SIZE;

/// What the holder of `s_secret` reads from the hello `x1` with the counter `c`, or `None`
/// where it does not authenticate.
pub open spec fn hello_read<App: ApplicationLayer>(
    s_secret: App::KeyPair,
    c: u64,
    x1: Seq<u8>,
) -> Option<HelloView<App>> {
    let kid = x1.subrange(0, SESSION_ID_SIZE as int);
    let e_public = x1.subrange(SESSION_ID_SIZE as int, HELLO_E_END as int);
    let end = x1.len() - AES_GCM_TAG_SIZE;
    if !(HANDSHAKE_HELLO_MIN_SIZE <= x1.len() <= HANDSHAKE_HELLO_MAX_SIZE) {
        None
    } else if c != hello_counter(x1) || u32_of_be(kid) == 0 {
        None
    } else {
        match App::PublicKey::decoded(e_public) {
            None => None,
            Some(e_remote) => match s_secret.shared(e_remote) {
                None => None,
                Some(es) => {
                    let n0 = hello_start::<App>(kid, s_secret.public_encoded(), e_public, es);
                    let n1 = n0.mix_hash::<App>(
                        x1.subrange(HELLO_E_END as int, HELLO_PAYLOAD_START as int),
                    );
                    match (
                        n0.opened::<App>(
                            nonce_spec(PACKET_TYPE_HANDSHAKE_HELLO, 0),
                            x1.subrange(HELLO_E_END as int, HELLO_E1_END as int),
                            x1.subrange(HELLO_E1_END as int, HELLO_PAYLOAD_START as int),
                        ),
                        n1.opened::<App>(
                            nonce_spec(PACKET_TYPE_HANDSHAKE_HELLO, 1),
                            x1.subrange(HELLO_PAYLOAD_START as int, end),
                            x1.subrange(end, x1.len() as int),
                        ),
                    ) {
                        (Some(e1), Some(fingerprints)) => Some(
                            HelloView {
                                noise: n1.mix_hash::<App>(
                                    x1.subrange(HELLO_PAYLOAD_START as int, x1.len() as int),
                                ),
                                kid_send: u32_of_be(kid),
                                e_remote,
                                e1,
                                fingerprints,
                            },
                        ),
                        _ => None,
                    }
                },
            },
        }
    }
}

/// `r` may be what comes of looking up the fingerprints of a hello in turn: the first state that
/// is found and is not empty, `None` if there is none, or the error of a lookup. None is looked up
/// after that.
pub open spec fn ratchet_search<App: ApplicationLayer>(
    app: App,
    fingerprints: Seq<u8>,
    app_after: App,
    r: Result<Option<RatchetState>, ZetaError>,
) -> bool
    decreases fingerprints.len(),
{
    if fingerprints.len() < RATCHET_SIZE {
        app_after == app && r == Ok::<Option<RatchetState>, ZetaError>(None)
    } else {
        let rest = fingerprints.subrange(RATCHET_SIZE as int, fingerprints.len() as int);
        exists|answer: Result<Option<RatchetState>, std::io::Error>, next: App|
            {
                &&& #[trigger] app.may_restore_by_fingerprint(
                    fingerprints.subrange(0, RATCHET_SIZE as int),
                    answer,
                    next,
                )
                &&& match answer {
                    Err(e) => app_after == next && r == Err::<Option<RatchetState>, ZetaError>(
                        ZetaError::RatchetIoError(e),
                    ),
                    Ok(Some(rs)) => if rs@.fingerprint is Some {
                        app_after == next && r == Ok::<Option<RatchetState>, ZetaError>(Some(rs))
                    } else {
                        ratchet_search(next, rest, app_after, r)
                    },
                    Ok(None) => ratchet_search(next, rest, app_after, r),
                }
            }
    }
}

/// A responder that has answered a hello.
pub struct StateB2<App: ApplicationLayer> {
    pub ratchet_state: RatchetState,
    pub kid_send: u32,
    pub kid_recv: u32,
    pub hk_send: Secret,
    pub hk_recv: Secret,
    pub e_secret: App::KeyPair,
    pub noise: SymmetricState<App>,
}

/// What a responder that has answered a hello holds.
pub struct StateB2View<App: ApplicationLayer> {
    pub ratchet_state: RatchetView,
    pub kid_send: u32,
    pub kid_recv: u32,
    pub hk_send: Seq<u8>,
    pub hk_recv: Seq<u8>,
    pub e_secret: App::KeyPair,
    pub noise: Noise,
}

impl<App: ApplicationLayer> View for StateB2<App> {
    type V = StateB2View<App>;

    open spec fn view(&self) -> StateB2View<App> {
        StateB2View {
            ratchet_state: self.ratchet_state@,
            kid_send: self.kid_send,
            kid_recv: self.kid_recv,
            hk_send: self.hk_send@,
            hk_recv: self.hk_recv@,
            e_secret: self.e_secret,
            noise: self.noise@,
        }
    }
}

impl<App: ApplicationLayer> StateB2View<App> {
    /// No id is zero.
    pub open spec fn wf(self) -> bool {
        self.kid_send != 0 && self.kid_recv != 0
    }
}

/// The state that a response leaves a responder in, and the response: its ephemeral key, its
/// sealed Kyber ciphertext, and its sealed id.
pub open spec fn response<App: ApplicationLayer>(
    noise: Noise,
    e_public: Seq<u8>,
    ee: Seq<u8>,
    ekem1: Seq<u8>,
    ekem1_secret: Seq<u8>,
    ratchet_key: Seq<u8>,
    kid_recv: u32,
) -> (Noise, Seq<u8>) {
    let n0 = noise.mix_e::<App>(e_public).mix_key::<App>(ee);
    let ct = n0.sealed::<App>(nonce_spec(PACKET_TYPE_HANDSHAKE_RESPONSE, 0), ekem1);
    let n1 = n0.mix_hash::<App>(ct).mix_key::<App>(ekem1_secret).mix_key_and_hash::<App>(
        ratchet_key,
    );
    let payload = n1.sealed::<App>(
        nonce_spec(PACKET_TYPE_HANDSHAKE_RESPONSE, 0),
        u32_be(kid_recv),
    );
    (n1.mix_hash::<App>(payload), e_public + ct + payload)
}

/// The counter that a response is sent with: its last three bytes.
pub open spec fn response_counter(x2: Seq<u8>) -> u64 {
    u64_of_be(seq![0u8, 0u8, 0u8, 0u8, 0u8] + x2.subrange(x2.len() - 3, x2.len() as int))
}

/// The state of a responder that answers the hello `hello` with the ephemeral key `e_secret`
/// and the Kyber ciphertext `ekem1`, and the packet that carries the response; `None` where no
/// secret can be agreed with the ephemeral key of the hello.
pub open spec fn hello_answer<App: ApplicationLayer>(
    hello: HelloView<App>,
    ratchet_state: RatchetView,
    kid_recv: u32,
    e_secret: App::KeyPair,
    ekem1: Seq<u8>,
    ekem1_secret: Seq<u8>,
) -> Option<(StateB2View<App>, PacketView)> {
    match e_secret.shared(hello.e_remote) {
        None => None,
        Some(ee) => {
            let (noise, x2) = response::<App>(
                hello.noise,
                e_secret.public_encoded(),
                ee,
                ekem1,
                ekem1_secret,
                ratchet_state.key,
                kid_recv,
            );
            let hk = hello.noise.ask::<App>(LABEL_HEADER_KEY@);
            Some(
                (
                    StateB2View {
                        ratchet_state,
                        kid_send: hello.kid_send,
                        kid_recv,
                        hk_send: hk.0,
                        hk_recv: hk.1,
                        e_secret,
                        noise,
                    },
                    PacketView {
                        kid: hello.kid_send,
                        nonce: nonce_spec(PACKET_TYPE_HANDSHAKE_RESPONSE, response_counter(x2)),
                        payload: x2,
                    },
                ),
            )
        },
    }
}

/// `r` is the answer to `hello` under `ratchet_state` with an ephemeral key that may be drawn, and
/// with a Kyber ciphertext for the key of the hello.
pub open spec fn hello_answered<App: ApplicationLayer>(
    hello: HelloView<App>,
    ratchet_state: RatchetView,
    kid_recv: u32,
    r: Result<(StateB2<App>, Packet), ZetaError>,
) -> bool {
    exists|e_secret: App::KeyPair, ekem1: Seq<u8>, ekem1_secret: Seq<u8>|
        {
            &&& e_secret.may_generate()
            &&& is_encapsulation(hello.e1, ekem1, ekem1_secret)
            &&& ekem1.len() == KYBER_CIPHERTEXTBYTES
            &&& match #[trigger] hello_answer::<App>(
                hello,
                ratchet_state,
                kid_recv,
                e_secret,
                ekem1,
                ekem1_secret,
            ) {
                None => r matches Err(ZetaError::FailedAuthentication),
                Some((b2, packet)) => r matches Ok((z, p)) && z@ == b2 && p@ == packet,
            }
        }
}

/// `r` may be what comes of the hello `x1` with the counter `c`, and `app_after` what becomes of
/// the application. It is asked nothing before the hello is authentic.
pub open spec fn hello_handled<App: ApplicationLayer>(
    app: App,
    kid_recv: u32,
    s_secret: App::KeyPair,
    c: u64,
    x1: Seq<u8>,
    app_after: App,
    r: Result<(StateB2<App>, Packet), ZetaError>,
) -> bool {
    match hello_read::<App>(s_secret, c, x1) {
        None => app_after == app && r matches Err(ZetaError::FailedAuthentication),
        Some(hello) => exists|found: Result<Option<RatchetState>, ZetaError>, next: App|
            {
                &&& #[trigger] ratchet_search(app, hello.fingerprints, next, found)
                &&& match found {
                    Err(e) => app_after == next && r == Err::<(StateB2<App>, Packet), ZetaError>(
                        e,
                    ),
                    Ok(Some(rs)) => app_after == next && hello_answered(hello, rs@, kid_recv, r),
                    Ok(None) => exists|required: bool|
                        {
                            &&& #[trigger] next.may_require_ratchet(required, app_after)
                            &&& if required {
                                r matches Err(ZetaError::FailedAuthentication)
                            } else {
                                hello_answered(hello, empty_ratchet(), kid_recv, r)
                            }
                        },
                }
            },
    }
}

/// Appends the fingerprint of a ratchet state, where it has one.
fn append_fingerprint(packet: &mut Vec<u8>, s: &Option<RatchetState>)
    ensures
        final(packet)@ == old(packet)@ + fingerprint_bytes(
            crate::ratchet_state::ratchet_view(*s),
        ),
        final(packet)@.len() <= old(packet)@.len() + RATCHET_SIZE,
{
    if let Some(s) = s {
        if let Some(rf) = s.fingerprint() {
            append(packet, rf.as_slice());
            return ;
        }
    }
    assert(packet@ =~= old(packet)@ + Seq::<u8>::empty());
}

impl<App: ApplicationLayer> Zeta<App> {
    /// A session that sends a hello with these keys, and the hello; `None` where no secret can
    /// be agreed with the static key of the remote peer.
    pub fn offer_hello(
        settings: &Settings,
        kid_recv: u32,
        s_remote: App::PublicKey,
        application_data: App::Data,
        ratchet_states: RatchetStates,
        e_secret: App::KeyPair,
        e1: KyberKeypair,
        current_time: i64,
    ) -> (r: Option<(Self, Packet)>)
        requires
            kid_recv != 0,
            e1.public@.len() == KYBER_PUBLICKEYBYTES,
            settings.valid(),
            settings.reckons_from(current_time),
        ensures
            offered_fingerprints(ratchet_states@).len() <= 2 * RATCHET_SIZE,
            match opened_session::<App>(
                *settings,
                kid_recv,
                s_remote,
                application_data,
                ratchet_states@,
                e_secret,
                e1.public@,
                e1.secret@,
                current_time,
            ) {
                None => r is None,
                Some((zeta, packet)) => r matches Some((z, p)) && z@ == zeta && p@ == packet
                    && z@.wf() && p@.payload.len() == HANDSHAKE_HELLO_MIN_SIZE
                    + offered_fingerprints(ratchet_states@).len(),
            },
    {
        let mut fingerprints: Vec<u8> = Vec::new();
        append_fingerprint(&mut fingerprints, &ratchet_states.first);
        append_fingerprint(&mut fingerprints, &ratchet_states.second);
        assert(fingerprints@ =~= offered_fingerprints(ratchet_states@));
        let mut noise = SymmetricState::<App>::initialize(INITIAL_H);
        let mut x1: Vec<u8> = Vec::new();
        // Process prologue.
        let kid = u32_to_be_bytes(kid_recv);
        append(&mut x1, kid.as_slice());
        noise.mix_hash(kid.as_slice());
        noise.mix_hash(s_remote.to_bytes().as_slice());
        // X1 process e.
        noise.put_e(&e_secret, &mut x1);
        // X1 process es.
        if noise.token_dh(&e_secret, &s_remote).is_none() {
            return None;
        }
        let ghost es = e_secret.shared(s_remote)->0;
        let ghost n0 = noise@;
        let ghost start = x1@;
        assert(n0 == hello_start::<App>(
            u32_be(kid_recv),
            s_remote.encoded(),
            e_secret.public_encoded(),
            es,
        ));
        assert(start =~= u32_be(kid_recv) + e_secret.public_encoded());
        // X1 process e1.
        let i: usize = x1.len();
        append(&mut x1, e1.public.as_slice());
        assert(x1@.subrange(i as int, x1@.len() as int) =~= e1.public@);
        assert(x1@.subrange(0, i as int) =~= start);
        noise.encrypt_and_hash(nonce(PACKET_TYPE_HANDSHAKE_HELLO, 0), i, &mut x1);
        let ghost with_e1 = x1@;
        // X1 process payload.
        let i: usize = x1.len();
        append(&mut x1, fingerprints.as_slice());
        assert(x1@.subrange(i as int, x1@.len() as int) =~= offered_fingerprints(
            ratchet_states@,
        ));
        assert(x1@.subrange(0, i as int) =~= with_e1);
        noise.encrypt_and_hash(nonce(PACKET_TYPE_HANDSHAKE_HELLO, 1), i, &mut x1);

        let (hk_recv, hk_send) = noise.get_ask(LABEL_HEADER_KEY);
        let c = u64_from_be_bytes(
            vstd::slice::slice_subrange(x1.as_slice(), x1.len() - 8, x1.len()),
        );
        let x1_copy = part(x1.as_slice(), 0, x1.len());
        assert(x1_copy@ =~= x1@);

        let keys = DualKeys {
            send: Keys::default(),
            recv: Keys { kek: None, nk: None, kid: Some(kid_recv) },
        };
        let z = Zeta {
            application_data,
            was_bob: false,
            s_remote,
            send_counter: 0,
            key_creation_counter: 0,
            key_index: true,
            keys: [keys, DualKeys::default()],
            ratchet_states,
            hk_recv,
            hk_send,
            resend_timer: current_time + settings.retry_interval_ms,
            timeout_timer: current_time + settings.expiration_timeout_ms,
            beta: ZsspAutomata::A1 { noise, e_secret, e1_secret: e1.secret, x1: x1_copy },
        };
        Some((z, Packet(0, nonce(PACKET_TYPE_HANDSHAKE_HELLO, c), x1)))
    }

    /// Opens a session with the holder of the static key `s_remote`: the session, and the hello
    /// to send.
    pub fn trans_null_to_a1(
        app: &mut App,
        rng: &mut OsRng,
        kid_recv: u32,
        s_remote: App::PublicKey,
        application_data: App::Data,
        current_time: i64,
    ) -> (r: Result<(Self, Packet), OpenError>)
        requires
            kid_recv != 0,
            old(app).settings_spec().valid(),
            old(app).settings_spec().reckons_from(current_time),
        ensures
            session_opened(
                *old(app),
                kid_recv,
                s_remote,
                application_data,
                current_time,
                *final(app),
                r,
            ),
            final(app).settings_spec() == old(app).settings_spec(),
            r matches Ok((z, p)) ==> z@.wf() && p@.measured() && p@.payload.len()
                == HANDSHAKE_HELLO_MIN_SIZE + offered_fingerprints(z@.ratchet_states).len(),
    {
        let ratchet_states = match app.restore_by_identity(&s_remote, &application_data) {
            Ok(states) => states,
            Err(e) => return Err(OpenError::StorageError(e)),
        };
        let settings = app.settings();
        let e_secret = App::KeyPair::generate(rng);
        let e1 = kyber_keypair(rng);
        match Self::offer_hello(
            &settings,
            kid_recv,
            s_remote,
            application_data,
            ratchet_states,
            e_secret,
            e1,
            current_time,
        ) {
            Some(opened) => Ok(opened),
            None => Err(OpenError::InvalidPublicKey),
        }
    }

    /// Reads the hello `x1` with the counter `c`, or returns `None` where it does not
    /// authenticate.
    pub fn read_hello(s_secret: &App::KeyPair, c: u64, x1: &Vec<u8>) -> (r: Option<Hello<App>>)
        ensures
            match hello_read::<App>(*s_secret, c, x1@) {
                None => r is None,
                Some(hello) => r matches Some(h) && h@ == hello && h.e1@.len()
                    == KYBER_PUBLICKEYBYTES,
            },
    {
        if x1.len() < HANDSHAKE_HELLO_MIN_SIZE || x1.len() > HANDSHAKE_HELLO_MAX_SIZE {
            return None;
        }
        let len: usize = x1.len();
        if c != u64_from_be_bytes(vstd::slice::slice_subrange(x1.as_slice(), len - 8, len)) {
            return None;
        }
        let mut noise = SymmetricState::<App>::initialize(INITIAL_H);
        // Process prologue.
        let kid = vstd::slice::slice_subrange(x1.as_slice(), 0, SESSION_ID_SIZE);
        noise.mix_hash(kid);
        let kid_send = u32_from_be_bytes(kid);
        if kid_send == 0 {
            return None;
        }
        noise.mix_hash(s_secret.public_key_bytes().as_slice());
        let mut i: usize = SESSION_ID_SIZE;
        // X1 process e.
        let e_remote = match noise.read_e(&mut i, x1) {
            Ok(key) => key,
            Err(_) => return None,
        };
        // X1 process es.
        if noise.token_dh(s_secret, &e_remote).is_none() {
            return None;
        }
        // X1 process e1.
        let mut e1 = part(x1.as_slice(), HELLO_E_END, HELLO_E1_END);
        let tag = array_at::<AES_GCM_TAG_SIZE>(x1.as_slice(), HELLO_E1_END);
        assert(e1@ + tag@ =~= x1@.subrange(HELLO_E_END as int, HELLO_PAYLOAD_START as int));
        if !noise.decrypt_and_hash(nonce(PACKET_TYPE_HANDSHAKE_HELLO, 0), &mut e1, tag) {
            return None;
        }
        // X1 process payload.
        let j: usize = len - AES_GCM_TAG_SIZE;
        let mut fingerprints = part(x1.as_slice(), HELLO_PAYLOAD_START, j);
        let tag = array_at::<AES_GCM_TAG_SIZE>(x1.as_slice(), j);
        assert(fingerprints@ + tag@ =~= x1@.subrange(
            HELLO_PAYLOAD_START as int,
            x1@.len() as int,
        ));
        if !noise.decrypt_and_hash(
            nonce(PACKET_TYPE_HANDSHAKE_HELLO, 1),
            &mut fingerprints,
            tag,
        ) {
            return None;
        }
        Some(Hello { noise, kid_send, e_remote, e1, fingerprints })
    }

    /// Looks up the fingerprints of a hello in turn.
    pub fn find_ratchet(app: &mut App, fingerprints: &Vec<u8>) -> (r: Result<
        Option<RatchetState>,
        ZetaError,
    >)
        ensures
            ratchet_search(*old(app), fingerprints@, *final(app), r),
            final(app).settings_spec() == old(app).settings_spec(),
    {
        assert(fingerprints@.subrange(0, fingerprints@.len() as int) =~= fingerprints@);
        Self::find_ratchet_from(app, fingerprints, 0)
    }

    /// Looks up the fingerprints of a hello in turn, from `i` on.
    fn find_ratchet_from(app: &mut App, fingerprints: &Vec<u8>, i: usize) -> (r: Result<
        Option<RatchetState>,
        ZetaError,
    >)
        requires
            i <= fingerprints@.len(),
        ensures
            ratchet_search(
                *old(app),
                fingerprints@.subrange(i as int, fingerprints@.len() as int),
                *final(app),
                r,
            ),
            final(app).settings_spec() == old(app).settings_spec(),
        decreases fingerprints@.len() - i,
    {
        let ghost rest = fingerprints@.subrange(i as int, fingerprints@.len() as int);
        if fingerprints.len() - i < RATCHET_SIZE {
            return Ok(None);
        }
        let rf = array_at::<RATCHET_SIZE>(fingerprints.as_slice(), i);
        assert(rf@ =~= rest.subrange(0, RATCHET_SIZE as int));
        assert(rest.subrange(RATCHET_SIZE as int, rest.len() as int) =~= fingerprints@.subrange(
            i + RATCHET_SIZE,
            fingerprints@.len() as int,
        ));
        match app.restore_by_fingerprint(&rf) {
            Err(e) => Err(ZetaError::RatchetIoError(e)),
            Ok(Some(rs)) => {
                if rs.is_empty() {
                    Self::find_ratchet_from(app, fingerprints, i + RATCHET_SIZE)
                } else {
                    Ok(Some(rs))
                }
            },
            Ok(None) => Self::find_ratchet_from(app, fingerprints, i + RATCHET_SIZE),
        }
    }

    /// Answers `hello` under a ratchet state, with an ephemeral key and with a Kyber ciphertext
    /// and its secret; `None` where no secret can be agreed with the ephemeral key of the hello.
    pub fn answer_hello(
        hello: Hello<App>,
        ratchet_state: RatchetState,
        kid_recv: u32,
        e_secret: App::KeyPair,
        ekem1: &Vec<u8>,
        ekem1_secret: &Secret,
    ) -> (r: Option<(StateB2<App>, Packet)>)
        ensures
            match hello_answer::<App>(
                hello@,
                ratchet_state@,
                kid_recv,
                e_secret,
                ekem1@,
                ekem1_secret@,
            ) {
                None => r is None,
                Some((b2, packet)) => r matches Some((z, p)) && z@ == b2 && p@ == packet
                    && p@.payload.len() == HANDSHAKE_RESPONSE_SIZE + (ekem1@.len()
                    - KYBER_CIPHERTEXTBYTES),
            },
    {
        let mut noise = hello.noise;
        let (hk_send, hk_recv) = noise.get_ask(LABEL_HEADER_KEY);
        let mut x2: Vec<u8> = Vec::new();
        // X2 process e token.
        noise.put_e(&e_secret, &mut x2);
        assert(x2@ =~= e_secret.public_encoded());
        // X2 process ee token.
        if noise.token_dh(&e_secret, &hello.e_remote).is_none() {
            return None;
        }
        // X2 process ekem1 token.
        let i: usize = x2.len();
        append(&mut x2, ekem1.as_slice());
        assert(x2@.subrange(i as int, x2@.len() as int) =~= ekem1@);
        assert(x2@.subrange(0, i as int) =~= e_secret.public_encoded());
        noise.encrypt_and_hash(nonce(PACKET_TYPE_HANDSHAKE_RESPONSE, 0), i, &mut x2);
        let ghost with_ct = x2@;
        noise.mix_key(ekem1_secret.as_ref().as_slice());
        // X2 process psk token.
        noise.mix_key_and_hash(ratchet_state.key.as_ref().as_slice());
        // X2 process payload.
        let i: usize = x2.len();
        let kid = u32_to_be_bytes(kid_recv);
        append(&mut x2, kid.as_slice());
        assert(x2@.subrange(i as int, x2@.len() as int) =~= u32_be(kid_recv));
        assert(x2@.subrange(0, i as int) =~= with_ct);
        noise.encrypt_and_hash(nonce(PACKET_TYPE_HANDSHAKE_RESPONSE, 0), i, &mut x2);

        let len: usize = x2.len();
        let counter: [u8; 8] = [0, 0, 0, 0, 0, x2[len - 3], x2[len - 2], x2[len - 1]];
        assert(counter@ =~= seq![0u8, 0u8, 0u8, 0u8, 0u8] + x2@.subrange(
            x2@.len() - 3,
            x2@.len() as int,
        ));
        let n = nonce(PACKET_TYPE_HANDSHAKE_RESPONSE, u64_from_be_bytes(counter.as_slice()));
        Some(
            (
                StateB2 {
                    ratchet_state,
                    kid_send: hello.kid_send,
                    kid_recv,
                    hk_send,
                    hk_recv,
                    e_secret,
                    noise,
                },
                Packet(hello.kid_send, n, x2),
            ),
        )
    }

    /// Handles the hello `x1` with the counter `c` as the holder of `s_secret`, who will be
    /// known to the initiator by the id `kid_recv`: the state of the responder, and the response
    /// to send.
    pub fn trans_null_to_b2(
        app: &mut App,
        rng: &mut OsRng,
        kid_recv: u32,
        s_secret: &App::KeyPair,
        c: u64,
        x1: Vec<u8>,
    ) -> (r: Result<(StateB2<App>, Packet), ZetaError>)
        requires
            kid_recv != 0,
        ensures
            hello_handled(*old(app), kid_recv, *s_secret, c, x1@, *final(app), r),
            final(app).settings_spec() == old(app).settings_spec(),
            r matches Ok((z, p)) ==> z@.wf() && z@.kid_recv == kid_recv && p@.payload.len()
                == HANDSHAKE_RESPONSE_SIZE,
    {
        let hello = match Self::read_hello(s_secret, c, &x1) {
            Some(hello) => hello,
            None => return Err(ZetaError::FailedAuthentication),
        };
        // X1 get ratchet key.
        let found = Self::find_ratchet(app, &hello.fingerprints);
        let ghost searched = *app;
        assert(ratchet_search(*old(app), hello@.fingerprints, searched, found));
        let ratchet_state = match found {
            Err(e) => return Err(e),
            Ok(Some(rs)) => rs,
            Ok(None) => {
                let required = app.hello_requires_recognized_ratchet();
                assert(searched.may_require_ratchet(required, *app));
                if required {
                    return Err(ZetaError::FailedAuthentication);
                }
                RatchetState::empty()
            },
        };
        let e_secret = App::KeyPair::generate(rng);
        let (ekem1, ekem1_secret) = match kyber_encapsulate(hello.e1.as_slice(), rng) {
            Some(encapsulated) => encapsulated,
            None => return Err(ZetaError::FailedAuthentication),
        };
        match Self::answer_hello(hello, ratchet_state, kid_recv, e_secret, &ekem1, &ekem1_secret) {
            Some(answered) => Ok(answered),
            None => Err(ZetaError::FailedAuthentication),
        }
    }
}

} // verus!
