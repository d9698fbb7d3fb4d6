//! The end of the handshake for a responder: it reads the completion, and either establishes a
//! session or refuses one.

use vstd::prelude::*;

use crate::application::{ApplicationLayer, RatchetStates, RatchetStatesView, Settings};
use crate::bytes::{array_at, part};
use crate::crypto::{P384KeyPair, P384PublicKey};
use crate::proto::{
    AES_GCM_TAG_SIZE, HANDSHAKE_COMPLETION_MIN_SIZE, INIT_COUNTER, KEY_CONFIRMATION_SIZE,
    LABEL_KEX_KEY, LABEL_RATCHET_STATE, P384_PUBLIC_KEY_SIZE, PACKET_TYPE_HANDSHAKE_COMPLETION,
    PACKET_TYPE_KEY_CONFIRM, PACKET_TYPE_SESSION_REJECTED, SESSION_REJECTED_SIZE,
};
use crate::ratchet_state::{next_ratchet, RatchetState, RatchetView};
use crate::result::ZetaError;
use crate::symmetric_state::{Noise, SymmetricState};
use crate::zeta::hello::{StateB2, StateB2View};
use crate::zeta::sealed::{control_tag, seal_control};
use crate::zeta::{
    no_keys, nonce, nonce_spec, BetaView, DualKeys, DualKeysView, Keys, KeysView, Packet,
    PacketView, Zeta, ZetaView, ZsspAutomata,
};

verus! {

/// Where the encrypted identity of a completion starts.
pub const COMPLETION_IDENTITY_START: usize = P384_PUBLIC_KEY_SIZE + AES_GCM_TAG_SIZE;

/// What a responder has read from a completion.
pub struct Completion<App: ApplicationLayer> {
    pub noise: SymmetricState<App>,
    pub s_remote: App::PublicKey,
    pub identity: Vec<u8>,
}

/// What a responder has read from a completion.
pub struct CompletionView<App: ApplicationLayer> {
    pub noise: Noise,
    pub s_remote: App::PublicKey,
    pub identity: Seq<u8>,
}

impl<App: ApplicationLayer> View for Completion<App> {
    type V = CompletionView<App>;

    open spec fn view(&self) -> CompletionView<App> {
        CompletionView {
            noise: self.noise@,
            s_remote: self.s_remote,
            identity: self.identity@,
        }
    }
}

/// What the responder `b2` reads from the completion `x3` that came to the id `kid`, or `None`
/// where it does not authenticate. The identity goes up to the tag at the end of the completion.
pub open spec fn completion_read<App: ApplicationLayer>(
    b2: StateB2View<App>,
    kid: u32,
    x3: Seq<u8>,
) -> Option<CompletionView<App>> {
    let end = x3.len() - AES_GCM_TAG_SIZE;
    if x3.len() < HANDSHAKE_COMPLETION_MIN_SIZE || kid != b2.kid_recv {
        None
    } else {
        match b2.noise.opened::<App>(
            nonce_spec(PACKET_TYPE_HANDSHAKE_COMPLETION, 1),
            x3.subrange(0, P384_PUBLIC_KEY_SIZE as int),
            x3.subrange(P384_PUBLIC_KEY_SIZE as int, COMPLETION_IDENTITY_START as int),
        ) {
            None => None,
            Some(s_public) => match App::PublicKey::decoded(s_public) {
                None => None,
                Some(s_remote) => match b2.e_secret.shared(s_remote) {
                    None => None,
                    Some(se) => {
                        let n1 = b2.noise.mix_hash::<App>(
                            x3.subrange(0, COMPLETION_IDENTITY_START as int),
                        ).mix_key::<App>(se);
                        match n1.opened::<App>(
                            nonce_spec(PACKET_TYPE_HANDSHAKE_COMPLETION, 0),
                            x3.subrange(COMPLETION_IDENTITY_START as int, end),
                            x3.subrange(end, x3.len() as int),
                        ) {
                            None => None,
                            Some(identity) => Some(
                                CompletionView {
                                    noise: n1.mix_hash::<App>(
                                        x3.subrange(
                                            COMPLETION_IDENTITY_START as int,
                                            x3.len() as int,
                                        ),
                                    ),
                                    s_remote,
                                    identity,
                                },
                            ),
                        }
                    },
                },
            },
        }
    }
}

/// The packet by which a responder refuses a session.
pub open spec fn rejection<App: ApplicationLayer>(
    b2: StateB2View<App>,
    completion: CompletionView<App>,
) -> PacketView {
    let n = nonce_spec(PACKET_TYPE_SESSION_REJECTED, INIT_COUNTER);
    PacketView {
        kid: b2.kid_send,
        nonce: n,
        payload: control_tag::<App>(completion.noise.ask::<App>(LABEL_KEX_KEY@).0, n),
    }
}

/// What an optional packet holds.
pub open spec fn packet_view(p: Option<Packet>) -> Option<PacketView> {
    match p {
        Some(p) => Some(p@),
        None => None,
    }
}

/// Says of the ratchet state that a handshake went by whether it is one of the states that
/// are stored for the initiator (`Some(false)`), or is accepted all the same, being empty where
/// that is allowed (`Some(true)`), or is not accepted (`None`).
pub open spec fn ratchet_judged(
    used: RatchetView,
    stored: RatchetStatesView,
    disallows_downgrade: bool,
) -> Option<bool> {
    if stored.first == Some(used) || stored.second == Some(used) {
        Some(false)
    } else if !disallows_downgrade && used.fingerprint is None {
        Some(true)
    } else {
        None
    }
}

/// The ratchet states of a responder that establishes a session.
pub open spec fn states_established<App: ApplicationLayer>(
    b2: StateB2View<App>,
    completion: CompletionView<App>,
) -> RatchetStatesView {
    let rk = completion.noise.ask::<App>(LABEL_RATCHET_STATE@);
    RatchetStatesView {
        first: Some(next_ratchet(rk.0, rk.1, b2.ratchet_state.chain_len)),
        second: None,
    }
}

/// The session that a responder establishes, and the key confirmation that it sends.
pub open spec fn established<App: ApplicationLayer>(
    b2: StateB2View<App>,
    settings: Settings,
    completion: CompletionView<App>,
    application_data: App::Data,
    current_time: i64,
) -> (ZetaView<App>, PacketView) {
    let kek = completion.noise.ask::<App>(LABEL_KEX_KEY@);
    let nk = completion.noise.split::<App>();
    let n = nonce_spec(PACKET_TYPE_KEY_CONFIRM, INIT_COUNTER);
    (
        ZetaView {
            application_data,
            was_bob: true,
            s_remote: completion.s_remote,
            send_counter: (INIT_COUNTER + 1) as u64,
            key_creation_counter: (INIT_COUNTER + 1) as u64,
            key_index: false,
            keys: (
                DualKeysView {
                    send: KeysView {
                        kek: Some(kek.0),
                        nk: Some(nk.0),
                        kid: Some(b2.kid_send),
                    },
                    recv: KeysView {
                        kek: Some(kek.1),
                        nk: Some(nk.1),
                        kid: Some(b2.kid_recv),
                    },
                },
                DualKeysView { send: no_keys(), recv: no_keys() },
            ),
            ratchet_states: states_established(b2, completion),
            hk_send: b2.hk_send,
            hk_recv: b2.hk_recv,
            resend_timer: (current_time + settings.retry_interval_ms) as i64,
            timeout_timer: (current_time + settings.expiration_timeout_ms) as i64,
            beta: BetaView::S1,
        },
        PacketView { kid: b2.kid_send, nonce: n, payload: control_tag::<App>(kek.0, n) },
    )
}

/// `r` may be what comes of the completion `x3` that came to the id `kid`, and `app_after` what
/// becomes of the application. It is asked nothing before the completion is authentic, and nothing
/// is stored where the initiator or its ratchet state is refused.
pub open spec fn completion_handled<App: ApplicationLayer>(
    app: App,
    b2: StateB2View<App>,
    kid: u32,
    x3: Seq<u8>,
    current_time: i64,
    app_after: App,
    r: Result<(Zeta<App>, Packet, bool), (ZetaError, Option<Packet>)>,
) -> bool {
    match completion_read(b2, kid, x3) {
        None => app_after == app && r matches Err((ZetaError::FailedAuthentication, None)),
        Some(completion) => exists|answer: (Option<(bool, App::Data)>, bool), judging: App|
            {
                let refusal = if answer.1 {
                    Some(rejection(b2, completion))
                } else {
                    None
                };
                &&& #[trigger] app.may_accept(
                    completion.s_remote,
                    completion.identity,
                    answer,
                    judging,
                )
                &&& match answer.0 {
                    None => app_after == judging && (r matches Err((ZetaError::Rejected, p))
                        && packet_view(p) == refusal),
                    Some((disallows, data)) => completion_accepted(
                        judging,
                        app.settings_spec(),
                        b2,
                        completion,
                        disallows,
                        data,
                        refusal,
                        current_time,
                        app_after,
                        r,
                    ),
                }
            },
    }
}

/// `r` may be what comes of a completion whose sender the application accepts, and `app_after` what
/// becomes of the application.
pub open spec fn completion_accepted<App: ApplicationLayer>(
    app: App,
    settings: Settings,
    b2: StateB2View<App>,
    completion: CompletionView<App>,
    disallows: bool,
    data: App::Data,
    refusal: Option<PacketView>,
    current_time: i64,
    app_after: App,
    r: Result<(Zeta<App>, Packet, bool), (ZetaError, Option<Packet>)>,
) -> bool {
    exists|restored: Result<RatchetStates, std::io::Error>, next: App|
        {
            &&& #[trigger] app.may_restore_by_identity(completion.s_remote, data, restored, next)
            &&& match restored {
                Err(e) => app_after == next && r == Err::<
                    (Zeta<App>, Packet, bool),
                    (ZetaError, Option<Packet>),
                >((ZetaError::RatchetIoError(e), None)),
                Ok(stored) => match ratchet_judged(b2.ratchet_state, stored@, disallows) {
                    None => app_after == next && (r matches Err(
                        (ZetaError::FailedAuthentication, p),
                    ) && packet_view(p) == refusal),
                    Some(downgraded) => exists|saved: Result<(), std::io::Error>|
                        {
                            &&& #[trigger] next.may_save_ratchet_state(
                                completion.s_remote,
                                data,
                                stored@,
                                states_established(b2, completion),
                                saved,
                                app_after,
                            )
                            &&& match saved {
                                Err(e) => r == Err::<
                                    (Zeta<App>, Packet, bool),
                                    (ZetaError, Option<Packet>),
                                >((ZetaError::RatchetIoError(e), None)),
                                Ok(_) => r matches Ok((z, p, d)) && (z@, p@) == established(
                                    b2,
                                    settings,
                                    completion,
                                    data,
                                    current_time,
                                ) && d == downgraded,
                            }
                        },
                },
            }
        }
}

/// Judges the ratchet state that a handshake went by against the states that are stored for
/// the initiator.
pub fn judge_ratchet(
    used: &RatchetState,
    stored: &RatchetStates,
    disallows_downgrade: bool,
) -> (r: Option<bool>)
    ensures
        r == ratchet_judged(used@, stored@, disallows_downgrade),
{
    let mut has_match = false;
    if let Some(rs) = &stored.first {
        has_match = used == rs;
    }
    if let Some(rs) = &stored.second {
        let second_matches = used == rs;
        has_match = has_match || second_matches;
    }
    if has_match {
        Some(false)
    } else if !disallows_downgrade && used.is_empty() {
        Some(true)
    } else {
        None
    }
}

impl<App: ApplicationLayer> StateB2<App> {
    /// Reads the completion `x3` that came to the id `kid`, or returns `None` where it does not
    /// authenticate.
    pub fn read_completion(&self, kid: u32, x3: &Vec<u8>) -> (r: Option<Completion<App>>)
        ensures
            match completion_read(self@, kid, x3@) {
                None => r is None,
                Some(completion) => r matches Some(c) && c@ == completion,
            },
    {
        if x3.len() < HANDSHAKE_COMPLETION_MIN_SIZE || kid != self.kid_recv {
            return None;
        }
        let mut noise = self.noise.clone();
        // Noise process pattern3 s token.
        let mut s_public = part(x3.as_slice(), 0, P384_PUBLIC_KEY_SIZE);
        let tag = array_at::<AES_GCM_TAG_SIZE>(x3.as_slice(), P384_PUBLIC_KEY_SIZE);
        assert(s_public@ + tag@ =~= x3@.subrange(0, COMPLETION_IDENTITY_START as int));
        if !noise.decrypt_and_hash(
            nonce(PACKET_TYPE_HANDSHAKE_COMPLETION, 1),
            &mut s_public,
            tag,
        ) {
            return None;
        }
        let s_bytes = array_at::<P384_PUBLIC_KEY_SIZE>(s_public.as_slice(), 0);
        assert(s_bytes@ =~= s_public@);
        let s_remote = match App::PublicKey::from_bytes(&s_bytes) {
            Some(key) => key,
            None => return None,
        };
        // Noise process pattern3 se token.
        if noise.token_dh(&self.e_secret, &s_remote).is_none() {
            return None;
        }
        // Noise process pattern3 payload.
        let end: usize = x3.len() - AES_GCM_TAG_SIZE;
        let mut identity = part(x3.as_slice(), COMPLETION_IDENTITY_START, end);
        let tag = array_at::<AES_GCM_TAG_SIZE>(x3.as_slice(), end);
        assert(identity@ + tag@ =~= x3@.subrange(
            COMPLETION_IDENTITY_START as int,
            x3@.len() as int,
        ));
        if !noise.decrypt_and_hash(
            nonce(PACKET_TYPE_HANDSHAKE_COMPLETION, 0),
            &mut identity,
            tag,
        ) {
            return None;
        }
        Some(Completion { noise, s_remote, identity })
    }

    /// The packet by which the session is refused, where one is to be sent.
    pub fn reject(&self, completion: &Completion<App>, send: bool) -> (r: Option<Packet>)
        ensures
            packet_view(r) == if send {
                Some(rejection(self@, completion@))
            } else {
                None
            },
            r matches Some(p) ==> p@.payload.len() == SESSION_REJECTED_SIZE,
    {
        if !send {
            return None;
        }
        let (kek_send, _) = completion.noise.get_ask(LABEL_KEX_KEY);
        let n = nonce(PACKET_TYPE_SESSION_REJECTED, INIT_COUNTER);
        // We just used a counter with this key, but we are not storing
        // the fact we used it in memory. This is currently ok because the
        // handshake is being dropped, so nonce reuse can't happen.
        Some(Packet(self.kid_send, n, seal_control::<App>(&kek_send, &n)))
    }

    /// The ratchet states of the session to establish.
    pub fn next_states(&self, completion: &Completion<App>) -> (r: RatchetStates)
        ensures
            r@ == states_established(self@, completion@),
    {
        let (rk, rf) = completion.noise.get_ask(LABEL_RATCHET_STATE);
        RatchetStates {
            first: Some(RatchetState::new_incr(rk, rf, self.ratchet_state.chain_len)),
            second: None,
        }
    }

    /// Establishes the session: the session, and the key confirmation to send.
    pub fn establish(
        &self,
        settings: &Settings,
        completion: Completion<App>,
        application_data: App::Data,
        states: RatchetStates,
        current_time: i64,
    ) -> (r: (Zeta<App>, Packet))
        requires
            self@.wf(),
            settings.valid(),
            settings.reckons_from(current_time),
            states@ == states_established(self@, completion@),
        ensures
            (r.0@, r.1@) == established(
                self@,
                *settings,
                completion@,
                application_data,
                current_time,
            ),
            r.0@.wf(),
            r.1@.payload.len() == KEY_CONFIRMATION_SIZE,
    {
        let (kek_send, kek_recv) = completion.noise.get_ask(LABEL_KEX_KEY);
        let (nk1, nk2) = completion.noise.split();
        let n = nonce(PACKET_TYPE_KEY_CONFIRM, INIT_COUNTER);
        let c1 = seal_control::<App>(&kek_send, &n);
        let keys = DualKeys {
            send: Keys { kek: Some(kek_send), nk: Some(nk1), kid: Some(self.kid_send) },
            recv: Keys { kek: Some(kek_recv), nk: Some(nk2), kid: Some(self.kid_recv) },
        };
        let session = Zeta {
            application_data,
            was_bob: true,
            s_remote: completion.s_remote,
            send_counter: INIT_COUNTER + 1,
            key_creation_counter: INIT_COUNTER + 1,
            key_index: false,
            keys: [keys, DualKeys::default()],
            ratchet_states: states,
            hk_send: self.hk_send.clone(),
            hk_recv: self.hk_recv.clone(),
            resend_timer: current_time + settings.retry_interval_ms,
            timeout_timer: current_time + settings.expiration_timeout_ms,
            beta: ZsspAutomata::S1,
        };
        (session, Packet(self.kid_send, n, c1))
    }
}

impl<App: ApplicationLayer> Zeta<App> {
    /// Handles the completion `x3` that came to the id `kid`: the session that is established,
    /// the key confirmation to send, and whether the initiator did not use a ratchet key that is
    /// stored for it; or why there is no session, and a packet to send all the same.
    pub fn trans_b2_to_s1(
        zeta: &StateB2<App>,
        app: &mut App,
        kid: u32,
        x3: Vec<u8>,
        current_time: i64,
    ) -> (r: Result<(Self, Packet, bool), (ZetaError, Option<Packet>)>)
        requires
            zeta@.wf(),
            old(app).settings_spec().valid(),
            old(app).settings_spec().reckons_from(current_time),
        ensures
            completion_handled(*old(app), zeta@, kid, x3@, current_time, *final(app), r),
            final(app).settings_spec() == old(app).settings_spec(),
            r matches Ok((z, p, d)) ==> z@.wf() && p@.payload.len() == KEY_CONFIRMATION_SIZE,
            r matches Err((e, Some(p))) ==> p@.payload.len() == SESSION_REJECTED_SIZE,
    {
        let completion = match zeta.read_completion(kid, &x3) {
            Some(completion) => completion,
            None => return Err((ZetaError::FailedAuthentication, None)),
        };
        let ghost read = completion@;
        let answer = app.check_accept_session(
            &completion.s_remote,
            completion.identity.as_slice(),
        );
        let ghost judging = *app;
        assert(old(app).may_accept(read.s_remote, read.identity, answer, judging));
        let (accepted, sends_rejection) = answer;
        let (responder_disallows_downgrade, application_data) = match accepted {
            Some(accepted) => accepted,
            None => {
                let d = zeta.reject(&completion, sends_rejection);
                return Err((ZetaError::Rejected, d));
            },
        };
        let restored = app.restore_by_identity(&completion.s_remote, &application_data);
        let ghost restoring = *app;
        assert(judging.may_restore_by_identity(
            read.s_remote,
            application_data,
            restored,
            restoring,
        ));
        let true_ratchet_states = match restored {
            Ok(states) => states,
            Err(e) => return Err((ZetaError::RatchetIoError(e), None)),
        };
        let downgraded = match judge_ratchet(
            &zeta.ratchet_state,
            &true_ratchet_states,
            responder_disallows_downgrade,
        ) {
            Some(downgraded) => downgraded,
            None => {
                let d = zeta.reject(&completion, sends_rejection);
                return Err((ZetaError::FailedAuthentication, d));
            },
        };
        // We must make sure the ratchet key is saved before we transition.
        let states = zeta.next_states(&completion);
        let saved = app.save_ratchet_state(
            &completion.s_remote,
            &application_data,
            &true_ratchet_states,
            &states,
        );
        assert(restoring.may_save_ratchet_state(
            read.s_remote,
            application_data,
            true_ratchet_states@,
            states_established(zeta@, read),
            saved,
            *app,
        ));
        if let Err(e) = saved {
            return Err((ZetaError::RatchetIoError(e), None));
        }
        let settings = app.settings();
        let (session, c1) = zeta.establish(
            &settings,
            completion,
            application_data,
            states,
            current_time,
        );
        Ok((session, c1, downgraded))
    }
}

} // verus!
