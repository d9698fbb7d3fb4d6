//! What a context does not answer.
//!
//! A context whose application does not challenge the senders of hellos, and requires that a hello
//! names a ratchet state that is known, answers nobody whom it has not authenticated.

use vstd::prelude::*;

use crate::application::{ApplicationLayer, IncomingSessionAction};
use crate::context::receive::Received;
use crate::context::ContextView;
use crate::frag_cache::fragments_of;
use crate::handshake_cache::{handshake_from, lemma_handshake_from};
use crate::proto::{
    CHALLENGE_SIZE, HANDSHAKE_COMPLETION_MAX_SIZE, HANDSHAKE_HELLO_CHALLENGE_MAX_SIZE,
    PACKET_TYPE_HANDSHAKE_COMPLETION, PACKET_TYPE_HANDSHAKE_HELLO,
};
use crate::ratchet_state::RatchetState;
use crate::result::{ReceiveOk, ZetaError};
use crate::session::packet_of;
use crate::wire::{fragment_header, nonce_counter, nonce_type, unprotected};
use crate::zeta::completion::completion_read;
use crate::zeta::hello::{hello_read, ratchet_search, StateB2View};

verus! {

/// An application that never challenges, and always requires a hello to name a ratchet state that
/// is known.
pub open spec fn keeps_silent<App: ApplicationLayer>() -> bool {
    &&& forall|any: App, action: IncomingSessionAction, next: App| #[trigger]
        any.may_take_incoming(action, next) ==> action != IncomingSessionAction::Challenge
    &&& forall|any: App, required: bool, next: App| #[trigger]
        any.may_require_ratchet(required, next) ==> required
}

/// The hello `x1` with the counter `c` is authentic to the holder of `s_secret`, and a ratchet
/// state that it names may be found.
pub open spec fn hello_is_known<App: ApplicationLayer>(
    s_secret: App::KeyPair,
    c: u64,
    x1: Seq<u8>,
) -> bool {
    &&& hello_read::<App>(s_secret, c, x1) matches Some(hello)
    &&& exists|any: App, next: App, rs: RatchetState| #[trigger]
        ratchet_search(
            any,
            hello.fingerprints,
            next,
            Ok::<Option<RatchetState>, ZetaError>(Some(rs)),
        )
}

/// A hello that is not authentic, or that names no ratchet state that is known, is not answered.
pub proof fn law_unknown_hello_unanswered<App: ApplicationLayer>(
    context: ContextView<App>,
    app: App,
    address: Seq<u8>,
    n: Seq<u8>,
    packet: Seq<u8>,
    current_time: i64,
    after: ContextView<App>,
    app_after: App,
    out: Received,
)
    requires
        keeps_silent::<App>(),
        context.hello_received(app, address, n, packet, current_time, after, app_after, out),
        !hello_is_known::<App>(
            context.s_secret,
            nonce_counter(n),
            packet.subrange(0, packet.len() - CHALLENGE_SIZE),
        ),
    ensures
        out.reply is None,
        after == context,
{
}

/// A completion that is not authentic is not answered, whatever the application decides.
pub proof fn law_false_completion_unanswered<App: ApplicationLayer>(
    context: ContextView<App>,
    app: App,
    b2: StateB2View<App>,
    kid: u32,
    packet: Seq<u8>,
    current_time: i64,
    after: ContextView<App>,
    app_after: App,
    out: Received,
)
    requires
        context.completion_received(app, b2, kid, packet, current_time, after, app_after, out),
        completion_read(b2, kid, packet) is None,
    ensures
        out.reply is None,
        after == context,
{
}

/// What comes for a session is answered only where it is taken: a fragment whose packet type or
/// counter is refused, as that of a replay is, is not answered, and neither is a packet that is not
/// authentic.
pub proof fn law_false_session_packet_unanswered<App: ApplicationLayer>(
    context: ContextView<App>,
    app: App,
    i: usize,
    kid: u32,
    fragment: Seq<u8>,
    current_time: i64,
    after: ContextView<App>,
    app_after: App,
    out: Received,
)
    requires
        context.session(i as int) is Some,
        context.session_received(app, i, kid, fragment, current_time, after, app_after, out),
    ensures
        out.result is Err ==> out.reply is None,
        ({
            let session = context.sessions[i as int]->0;
            let f = unprotected::<App>(session.zeta.hk_recv, fragment);
            fragment_header(f) matches Some((no, count, n)) ==> (session.fragment_refused(
                nonce_type(n),
                nonce_counter(n),
            ) is Some ==> out.result is Err && out.reply is None)
        }),
{
}

impl<App: ApplicationLayer> ContextView<App> {
    /// The packet that is there in full once a fragment has come that is addressed to no session,
    /// and its nonce.
    pub open spec fn unassociated_packet(self, address: Seq<u8>, fragment: Seq<u8>) -> Option<
        (Seq<u8>, Seq<u8>),
    > {
        match fragment_header(fragment) {
            None => None,
            Some((no, count, n)) => {
                let before = fragments_of(self.fragments, n, address);
                let fragments = if count > 1 {
                    before.assembled(n, fragment, no, count)
                } else {
                    seq![fragment]
                };
                if count > 1 && !before.completes(n, no, count) {
                    None
                } else {
                    match packet_of(
                        nonce_type(n),
                        fragments,
                        HANDSHAKE_HELLO_CHALLENGE_MAX_SIZE as int,
                    ) {
                        None => None,
                        Some(packet) => Some((n, packet)),
                    }
                }
            },
        }
    }

    /// The completion that is there in full once a fragment has come for the handshake at place
    /// `i`.
    pub open spec fn completion_packet(self, i: int, fragment: Seq<u8>) -> Option<Seq<u8>> {
        let handshake = self.handshakes[i];
        let f = unprotected::<App>(handshake.b2.hk_recv, fragment);
        match fragment_header(f) {
            None => None,
            Some((no, count, n)) => {
                let fragments = if count > 1 {
                    handshake.defrag.assembled(n, f, no, count)
                } else {
                    seq![f]
                };
                if count > 1 && !handshake.defrag.completes(n, no, count) {
                    None
                } else {
                    packet_of(
                        PACKET_TYPE_HANDSHAKE_COMPLETION,
                        fragments,
                        HANDSHAKE_COMPLETION_MAX_SIZE as int,
                    )
                }
            },
        }
    }
}

/// A context that keeps silent answers a physical packet to the id `kid` only where it completes
/// an authentic hello that names a ratchet state that is known, an authentic completion of a
/// handshake, or an authentic packet of a session.
pub proof fn law_silence<App: ApplicationLayer>(
    context: ContextView<App>,
    app: App,
    kid: u32,
    address: Seq<u8>,
    fragment: Seq<u8>,
    current_time: i64,
    after: ContextView<App>,
    app_after: App,
    out: Received,
)
    requires
        keeps_silent::<App>(),
        context.fragment_received(app, kid, address, fragment, current_time, after, app_after, out),
        out.reply is Some,
    ensures
        if kid == 0 {
            &&& context.unassociated_packet(address, fragment) matches Some((n, packet))
            &&& nonce_type(n) == PACKET_TYPE_HANDSHAKE_HELLO
            &&& hello_is_known::<App>(
                context.s_secret,
                nonce_counter(n),
                packet.subrange(0, packet.len() - CHALLENGE_SIZE),
            )
        } else if context.session_of(kid) is Some {
            out.result matches Ok(ReceiveOk::Associated(handle, event)) && Some(handle.index)
                == context.session_of(kid)
        } else {
            &&& handshake_from(context.handshakes, kid, 0) matches Some(i)
            &&& context.completion_packet(i, fragment) matches Some(packet)
            &&& completion_read(context.handshakes[i].b2, kid, packet) is Some
        },
{
    if kid != 0 && context.session_of(kid) is None {
        lemma_handshake_from(context.handshakes, kid, 0);
    }
}

} // verus!
