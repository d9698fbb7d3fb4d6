//! What the calls of a context leave behind: whom a packet reaches, what is decided on a hello, and
//! what opening, sending and closing do to the session that they are for, and to the others.

use vstd::prelude::*;

use crate::application::{ApplicationLayer, IncomingSessionAction, Settings};
use crate::bytes::contents;
use crate::challenge::challenge_for;
use crate::context::receive::Received;
use crate::context::ContextView;
use crate::crypto::HashSha512;
use crate::fragged::no_fragments;
use crate::handshake_cache::{handshake_from, handshakes_with, lemma_handshake_from, HandshakeView};
use crate::outgoing::{is_wire, Outgoing};
use crate::proto::{
    lemma_u32_be_roundtrip, u32_be, AES_GCM_TAG_SIZE, CHALLENGE_SIZE,
    HANDSHAKE_HELLO_CHALLENGE_MAX_SIZE, HANDSHAKE_HELLO_CHALLENGE_MIN_SIZE,
    HANDSHAKE_HELLO_MAX_SIZE, HANDSHAKE_HELLO_MIN_SIZE, HANDSHAKE_RESPONSE_SIZE, HEADER_SIZE,
    IDENTITY_MAX_SIZE, KID_SIZE, MAX_FRAGMENTS, MAX_UNASSOCIATED_HANDSHAKES, MIN_TRANSPORT_MTU,
    PACKET_TYPE_CHALLENGE, PACKET_TYPE_DATA, PACKET_TYPE_HANDSHAKE_HELLO,
};
use crate::result::{
    FaultType, OpenError, ReceiveError, ReceiveOk, SendError, SessionEvent, SessionHandle,
    ZetaError,
};
use crate::session::{packet_of, Processed, SessionView};
use crate::wire::{fragment_count, nonce_counter, nonce_type};
use crate::zeta::hello::{hello_handled, session_opened, StateB2, StateB2View};
use crate::zeta::opening::law_opened;
use crate::zeta::outcomes::{is_packet, same_ends};
use crate::zeta::sealed::packet_sealed;
use crate::zeta::{BetaView, Packet, Zeta};

verus! {

/// A packet reaches the session, or the handshake, that has its id, and no other. One to no id
/// changes nothing of a session but its answer to a challenge. What a context is by itself, its key
/// and the salt of its challenges, nothing changes.
pub proof fn law_others_untouched<App: ApplicationLayer>(
    before: ContextView<App>,
    app: App,
    kid: u32,
    address: Seq<u8>,
    fragment: Seq<u8>,
    current_time: i64,
    after: ContextView<App>,
    app_after: App,
    out: Received,
    j: int,
)
    requires
        before.wf(),
        before.fragment_received(
            app,
            kid,
            address,
            fragment,
            current_time,
            after,
            app_after,
            out,
        ),
        0 <= j < before.sessions.len(),
    ensures
        after.sessions.len() >= before.sessions.len(),
        after.salt == before.salt,
        after.s_secret == before.s_secret,
        kid != 0 ==> after.fragments == before.fragments,
        kid != 0 && before.session_of(kid) != Some(j as usize) ==> after.sessions[j]
            == before.sessions[j],
        kid == 0 ==> match (before.sessions[j], after.sessions[j]) {
            (Some(was), Some(now)) => now == (SessionView { challenge: now.challenge, ..was }),
            (None, None) => true,
            _ => false,
        },
        before.session_of(kid) is Some && kid != 0 ==> after.handshakes == before.handshakes,
{
}

/// What a session answers a packet with goes to its own peer, protected with its own key. A session
/// that was refused is gone; any other that took a packet is kept, by its ids and its timers.
pub proof fn law_session_answers_peer<App: ApplicationLayer>(
    before: ContextView<App>,
    app: App,
    i: usize,
    kid: u32,
    address: Seq<u8>,
    fragment: Seq<u8>,
    current_time: i64,
    after: ContextView<App>,
    app_after: App,
    out: Received,
)
    requires
        before.wf(),
        kid != 0,
        before.session_of(kid) == Some(i),
        before.fragment_received(
            app,
            kid,
            address,
            fragment,
            current_time,
            after,
            app_after,
            out,
        ),
    ensures
        out.reply matches Some(o) ==> {
            &&& o@.to == Some(SessionHandle { index: i })
            &&& o@.hk_send == Some((before.sessions[i as int]->0).zeta.hk_send)
            &&& out.result is Ok
        },
        out.result matches Ok(ReceiveOk::Associated(handle, event)) ==> {
            &&& handle.index == i
            &&& event == SessionEvent::Rejected ==> after.session(i as int) is None
            &&& event != SessionEvent::Rejected ==> after.session(i as int) is Some
        },
        out.result is Err ==> after.session(i as int) is Some,
        after.session(i as int) matches Some(now) ==> same_ends(
            now.zeta,
            (before.sessions[i as int]->0).zeta,
        ),
{
    let was = before.sessions[i as int]->0;
    let (session, taken) = was.fragment_taken(fragment);
    assert(session.zeta == was.zeta);
    if let Ok(Some((n, fragments))) = taken {
        if let Some(packet) = packet_of(nonce_type(n), fragments, HANDSHAKE_RESPONSE_SIZE as int) {
            let (kid_new, next, r) = choose|
                kid_new: u32,
                next: SessionView<App>,
                r: Result<Processed, ReceiveError>,
            |
                {
                    &&& kid_new != 0
                    &&& !before.in_use(kid_new)
                    &&& #[trigger] session.packet_processed(
                        app,
                        before.s_secret,
                        SessionHandle { index: i },
                        kid,
                        kid_new,
                        n,
                        packet,
                        current_time,
                        next,
                        app_after,
                        r,
                    )
                    &&& before.processed(i, next, r, after, out)
                };
            assert(same_ends(next.zeta, session.zeta));
        }
    }
}

/// A packet to an id that nobody has changes nothing and is not answered.
pub proof fn law_unknown_id_refused<App: ApplicationLayer>(
    before: ContextView<App>,
    app: App,
    kid: u32,
    address: Seq<u8>,
    fragment: Seq<u8>,
    current_time: i64,
    after: ContextView<App>,
    app_after: App,
    out: Received,
)
    requires
        before.fragment_received(
            app,
            kid,
            address,
            fragment,
            current_time,
            after,
            app_after,
            out,
        ),
        kid != 0,
        !before.map.contains_key(kid),
        forall|k: int|
            0 <= k < before.handshakes.len() ==> (#[trigger] before.handshakes[k]).b2.kid_recv
                != kid,
    ensures
        after == before,
        app_after == app,
        out.result matches Err(ReceiveError::ByzantineFault(f)) && f.error
            == FaultType::UnknownLocalKeyId && f.session is None,
        out.reply is None,
        out.data@.len() == 0,
{
    lemma_handshake_from(before.handshakes, kid, 0);
}

/// The application does this with every hello.
pub open spec fn always<App: ApplicationLayer>(app: App, action: IncomingSessionAction) -> bool {
    forall|answer: IncomingSessionAction, next: App| #[trigger]
        app.may_take_incoming(answer, next) ==> answer == action
}

/// What the sender of a hello answers a challenge with: the last bytes of the packet.
pub open spec fn answers_challenge<App: ApplicationLayer>(
    context: ContextView<App>,
    address: Seq<u8>,
    packet: Seq<u8>,
) -> bool {
    packet.subrange(packet.len() - CHALLENGE_SIZE, packet.len() as int) == challenge_for::<App>(
        context.salt,
        address,
    )
}

/// An answer to the challenge for one address does not answer the challenge for another, where the
/// keyed hash tells the two addresses apart, nor the challenge of a context with another salt.
pub proof fn law_challenge_bound<App: ApplicationLayer>(
    context: ContextView<App>,
    other: ContextView<App>,
    address: Seq<u8>,
    elsewhere: Seq<u8>,
    packet: Seq<u8>,
)
    requires
        answers_challenge(context, address, packet),
    ensures
        App::Hash::mac(context.salt, address).subrange(0, 32) != App::Hash::mac(
            context.salt,
            elsewhere,
        ).subrange(0, 32) ==> !answers_challenge(context, elsewhere, packet),
        App::Hash::mac(context.salt, address).subrange(0, 32) != App::Hash::mac(
            other.salt,
            address,
        ).subrange(0, 32) ==> !answers_challenge(other, address, packet),
{
}

/// A hello that the application wants dropped is dropped: it changes nothing and is not answered,
/// and the application learns of it.
pub proof fn law_hello_dropped<App: ApplicationLayer>(
    before: ContextView<App>,
    app: App,
    address: Seq<u8>,
    n: Seq<u8>,
    packet: Seq<u8>,
    current_time: i64,
    after: ContextView<App>,
    app_after: App,
    out: Received,
)
    requires
        HANDSHAKE_HELLO_CHALLENGE_MIN_SIZE <= packet.len() <= HANDSHAKE_HELLO_CHALLENGE_MAX_SIZE,
        before.hello_received(
            app,
            address,
            n,
            packet,
            current_time,
            after,
            app_after,
            out,
        ),
        always(app, IncomingSessionAction::Drop),
    ensures
        after == before,
        out.result == Err::<ReceiveOk, ReceiveError>(ReceiveError::Rejected),
        out.reply is None,
        out.data@.len() == 0,
{
}

/// A hello that the application wants challenged, and that does not answer the challenge for its
/// address, is answered with that challenge: under the id that the hello begins with, unprotected
/// and to no id. Nothing is kept of it.
pub proof fn law_hello_challenged<App: ApplicationLayer>(
    before: ContextView<App>,
    app: App,
    address: Seq<u8>,
    n: Seq<u8>,
    packet: Seq<u8>,
    current_time: i64,
    after: ContextView<App>,
    app_after: App,
    out: Received,
)
    requires
        HANDSHAKE_HELLO_CHALLENGE_MIN_SIZE <= packet.len() <= HANDSHAKE_HELLO_CHALLENGE_MAX_SIZE,
        before.hello_received(
            app,
            address,
            n,
            packet,
            current_time,
            after,
            app_after,
            out,
        ),
        always(app, IncomingSessionAction::Challenge),
        !answers_challenge(before, address, packet),
    ensures
        after == before,
        out.result matches Err(ReceiveError::ByzantineFault(f)) && f.error
            == FaultType::FailedAuth && f.session is None,
        out.data@.len() == 0,
        out.reply matches Some(o) && {
            &&& o@.to is None
            &&& o@.hk_send is None
            &&& o@.packet.kid == 0
            &&& o@.packet.nonce[3] == PACKET_TYPE_CHALLENGE
            &&& o@.packet.payload == packet.subrange(0, KID_SIZE as int) + challenge_for::<App>(
                before.salt,
                address,
            )
        },
{
}

/// A hello that the application allows, or that answers the challenge for its address where the
/// application wants that, is handled. If it is answered, the responder is kept, as the newest one,
/// for as long as the settings say, with no fragment of a completion yet, and the response goes out
/// protected with its key. If it is not, nothing is kept.
pub proof fn law_hello_let_in<App: ApplicationLayer>(
    before: ContextView<App>,
    app: App,
    address: Seq<u8>,
    n: Seq<u8>,
    packet: Seq<u8>,
    current_time: i64,
    after: ContextView<App>,
    app_after: App,
    out: Received,
)
    requires
        HANDSHAKE_HELLO_CHALLENGE_MIN_SIZE <= packet.len() <= HANDSHAKE_HELLO_CHALLENGE_MAX_SIZE,
        app.settings_spec().valid(),
        app.settings_spec().reckons_from(current_time),
        before.hello_received(
            app,
            address,
            n,
            packet,
            current_time,
            after,
            app_after,
            out,
        ),
        always(app, IncomingSessionAction::Allow) || (always(app, IncomingSessionAction::Challenge)
            && answers_challenge(before, address, packet)),
    ensures
        out.data@.len() == 0,
        exists|next: App, kid: u32, r: Result<(StateB2<App>, Packet), ZetaError>|
            {
                &&& kid != 0
                &&& !before.in_use(kid)
                &&& #[trigger] hello_handled(
                    next,
                    kid,
                    before.s_secret,
                    nonce_counter(n),
                    packet.subrange(0, packet.len() - CHALLENGE_SIZE),
                    app_after,
                    r,
                )
                &&& match r {
                    Err(e) => {
                        &&& out.result is Err
                        &&& out.reply is None
                        &&& after == before
                    },
                    Ok((b2, x2)) => {
                        &&& out.result == Ok::<ReceiveOk, ReceiveError>(ReceiveOk::Unassociated)
                        &&& out.reply matches Some(o)
                        &&& o@.to is None
                        &&& o@.packet == x2@
                        &&& o@.hk_send == Some(b2@.hk_send)
                        &&& after == before.with_handshakes(after.handshakes)
                        &&& after.handshakes.last().b2 == b2@
                        &&& after.handshakes.last().defrag == no_fragments()
                        &&& after.handshakes.last().expiry == current_time
                            + app.settings_spec().handshake_timeout
                    },
                }
            },
{
    let (action, next) = choose|action: IncomingSessionAction, next: App|
        {
            &&& #[trigger] app.may_take_incoming(action, next)
            &&& before.hello_admitted(
                next,
                app.settings_spec(),
                nonce_counter(n),
                packet.subrange(0, packet.len() - CHALLENGE_SIZE),
                current_time,
                after,
                app_after,
                out,
            )
        };
    let (kid, r) = choose|kid: u32, r: Result<(StateB2<App>, Packet), ZetaError>|
        {
            &&& kid != 0
            &&& !before.in_use(kid)
            &&& #[trigger] hello_handled(
                next,
                kid,
                before.s_secret,
                nonce_counter(n),
                packet.subrange(0, packet.len() - CHALLENGE_SIZE),
                app_after,
                r,
            )
            &&& match r {
                Err(e) => {
                    &&& after == before
                    &&& out.result is Err
                    &&& out.reply is None
                },
                Ok((b2, x2)) => {
                    &&& after == before.with_handshakes(
                        handshakes_with(
                            before.handshakes,
                            b2@,
                            (current_time + app.settings_spec().handshake_timeout) as i64,
                        ),
                    )
                    &&& out.result == Ok::<ReceiveOk, ReceiveError>(ReceiveOk::Unassociated)
                    &&& crate::outgoing::outgoing_view(out.reply)
                        == crate::context::receive::reply_view(None, Some(x2@), b2@.hk_send)
                },
            }
        };
    assert(hello_handled(
        next,
        kid,
        before.s_secret,
        nonce_counter(n),
        packet.subrange(0, packet.len() - CHALLENGE_SIZE),
        app_after,
        r,
    ));
}

/// A hello of any other size than hellos have changes nothing and is not answered, and the
/// application is asked for nothing.
pub proof fn law_hello_sized<App: ApplicationLayer>(
    before: ContextView<App>,
    app: App,
    address: Seq<u8>,
    n: Seq<u8>,
    packet: Seq<u8>,
    current_time: i64,
    after: ContextView<App>,
    app_after: App,
    out: Received,
)
    requires
        packet.len() < HANDSHAKE_HELLO_MIN_SIZE + CHALLENGE_SIZE || packet.len()
            > HANDSHAKE_HELLO_MAX_SIZE + CHALLENGE_SIZE,
        before.hello_received(
            app,
            address,
            n,
            packet,
            current_time,
            after,
            app_after,
            out,
        ),
    ensures
        after == before,
        app_after == app,
        out.result is Err,
        out.reply is None,
{
}

/// A responder that is newly kept can be found by its id, and has no fragments yet. The others are
/// kept as they were, except that the oldest one makes room where there are too many.
pub proof fn law_handshake_kept<App: ApplicationLayer>(
    entries: Seq<HandshakeView<App>>,
    b2: StateB2View<App>,
    expiry: i64,
)
    requires
        forall|k: int|
            0 <= k < entries.len() ==> (#[trigger] entries[k]).b2.kid_recv != b2.kid_recv,
    ensures
        ({
            let after = handshakes_with(entries, b2, expiry);
            &&& after.last() == (HandshakeView { b2, defrag: no_fragments(), expiry })
            &&& handshake_from(after, b2.kid_recv, 0) == Some(after.len() - 1)
            &&& entries.len() < MAX_UNASSOCIATED_HANDSHAKES ==> after.drop_last() == entries
            &&& entries.len() >= MAX_UNASSOCIATED_HANDSHAKES ==> after.drop_last()
                == entries.subrange(1, entries.len() as int)
        }),
{
    let after = handshakes_with(entries, b2, expiry);
    let kept = after.drop_last();
    if entries.len() < MAX_UNASSOCIATED_HANDSHAKES {
        assert(kept =~= entries);
    } else {
        assert(kept =~= entries.subrange(1, entries.len() as int));
        assert(forall|k: int| 0 <= k < kept.len() ==> #[trigger] kept[k] == entries[k + 1]);
    }
    lemma_handshake_from(after, b2.kid_recv, 0);
    let found = handshake_from(after, b2.kid_recv, 0);
    assert(after[after.len() - 1].b2.kid_recv == b2.kid_recv);
    if found is Some && found->0 < after.len() - 1 {
        let k = found->0;
        assert(after[k] == kept[k]);
        if entries.len() < MAX_UNASSOCIATED_HANDSHAKES {
            assert(entries[k].b2.kid_recv != b2.kid_recv);
        } else {
            assert(entries[k + 1].b2.kid_recv != b2.kid_recv);
        }
    }
}

/// The challenge of a responder lets the initiator in: the initiator takes note of the challenge
/// that it gets for its hello, and the hello that it then sends again answers the challenge for the
/// address that it was made for. `challenged` and `noted` are the initiator before and after it
/// gets the challenge, `resent` and `packet` what comes of its timers when they next run out.
pub proof fn law_challenge_lets_in<App: ApplicationLayer>(
    responder: ContextView<App>,
    address: Seq<u8>,
    app: App,
    n: Seq<u8>,
    hello: Seq<u8>,
    current_time: i64,
    responder_after: ContextView<App>,
    app_after: App,
    out: Received,
    challenged: ContextView<App>,
    i: usize,
    kid: u32,
    noted: ContextView<App>,
    noted_out: Received,
    initiator: App,
    s_secret: App::KeyPair,
    kid_new: u32,
    later: i64,
    resent: SessionView<App>,
    next: Option<i64>,
    packet: Option<Packet>,
)
    requires
        HANDSHAKE_HELLO_CHALLENGE_MIN_SIZE <= hello.len() <= HANDSHAKE_HELLO_CHALLENGE_MAX_SIZE,
        responder.hello_received(
            app,
            address,
            n,
            hello,
            current_time,
            responder_after,
            app_after,
            out,
        ),
        always(app, IncomingSessionAction::Challenge),
        !answers_challenge(responder, address, hello),
        challenge_for::<App>(responder.salt, address).len() == CHALLENGE_SIZE,
        challenged.wf(),
        challenged.session(i as int) matches Some(s) && {
            &&& s.zeta.key(true).recv.kid == Some(kid)
            &&& s.zeta.resend_timer <= later < s.zeta.timeout_timer
            &&& s.zeta.beta matches BetaView::A1 { x1, .. }
            &&& x1.subrange(0, KID_SIZE as int) == u32_be(kid)
            &&& x1 == hello.subrange(0, hello.len() - CHALLENGE_SIZE)
        },
        out.reply matches Some(o) && challenged.challenge_received(
            o@.packet.payload,
            noted,
            noted_out,
        ),
        noted.session(i as int) matches Some(s) && s.timers_processed(
            initiator,
            s_secret,
            kid_new,
            later,
            resent,
            next,
            packet,
        ),
    ensures
        noted_out.result == Ok::<ReceiveOk, ReceiveError>(ReceiveOk::Unassociated),
        noted_out.reply is None,
        packet matches Some(p) && p@.payload.subrange(0, hello.len() - CHALLENGE_SIZE)
            == hello.subrange(0, hello.len() - CHALLENGE_SIZE) && p@.payload.len() == hello.len()
            && p@.nonce[3] == PACKET_TYPE_HANDSHAKE_HELLO && answers_challenge(
            responder,
            address,
            p@.payload,
        ),
{
    law_hello_challenged(
        responder,
        app,
        address,
        n,
        hello,
        current_time,
        responder_after,
        app_after,
        out,
    );
    let challenge = challenge_for::<App>(responder.salt, address);
    let reply = (out.reply->0)@.packet.payload;
    let x1 = hello.subrange(0, hello.len() - CHALLENGE_SIZE);
    assert(hello.subrange(0, KID_SIZE as int) =~= x1.subrange(0, KID_SIZE as int));
    assert(reply.subrange(0, KID_SIZE as int) =~= u32_be(kid));
    assert(reply.subrange(KID_SIZE as int, reply.len() as int) =~= challenge);
    lemma_u32_be_roundtrip(kid);
    let s = challenged.sessions[i as int]->0;
    assert(s.wf() && challenged.registered(i as int, s.zeta));
    assert(s.zeta.key(true).recv.kid == Some(kid));
    assert(kid != 0);
    assert(challenged.session_of(kid) == Some(i));
    let payload = x1 + challenge;
    assert(payload.subrange(0, x1.len() as int) =~= x1);
    assert(payload.subrange(payload.len() - CHALLENGE_SIZE, payload.len() as int) =~= challenge);
}

/// What comes of opening a session. Exactly an identity that is too large is refused for its size,
/// and then the application is asked for nothing. A session that is opened gets a handle of its own
/// and is kept, with its identity, under an id that nobody had; its hello goes out unprotected,
/// with no answer to a challenge yet. Nothing else changes, and nothing at all where none is
/// opened.
pub proof fn law_session_opened<App: ApplicationLayer>(
    before: ContextView<App>,
    app: App,
    s_remote: App::PublicKey,
    session_data: App::Data,
    identity: Seq<u8>,
    current_time: i64,
    after: ContextView<App>,
    app_after: App,
    r: Result<(SessionHandle, Outgoing), OpenError>,
)
    requires
        before.wf(),
        before.sessions.len() < usize::MAX,
        app.settings_spec().valid(),
        app.settings_spec().reckons_from(current_time),
        before.opened(
            app,
            s_remote,
            session_data,
            identity,
            current_time,
            after,
            app_after,
            r,
        ),
    ensures
        r matches Err(OpenError::IdentityTooLarge) <==> identity.len() > IDENTITY_MAX_SIZE,
        identity.len() > IDENTITY_MAX_SIZE ==> app_after == app,
        r is Err ==> after == before,
        r matches Ok((handle, o)) ==> {
            &&& handle.index == before.sessions.len()
            &&& after.sessions.len() == before.sessions.len() + 1
            &&& forall|j: int|
                0 <= j < before.sessions.len() ==> #[trigger] after.sessions[j]
                    == before.sessions[j]
            &&& after.handshakes == before.handshakes
            &&& after.fragments == before.fragments
            &&& after.session(handle.index as int) matches Some(s)
            &&& s.identity == identity
            &&& s.zeta.s_remote == s_remote
            &&& s.zeta.application_data == session_data
            &&& s.zeta.beta matches BetaView::A1 { x1, .. }
            &&& s.zeta.key(true).recv.kid matches Some(kid)
            &&& kid != 0
            &&& !before.in_use(kid)
            &&& after.session_of(kid) == Some(handle.index)
            &&& x1.subrange(0, KID_SIZE as int) == u32_be(kid)
            &&& s.zeta.resend_timer == current_time + app.settings_spec().retry_interval_ms
            &&& s.zeta.timeout_timer == current_time + app.settings_spec().expiration_timeout_ms
            &&& o@.to == Some(handle)
            &&& o@.hk_send is None
            &&& o@.packet.kid == 0
            &&& o@.packet.nonce[3] == PACKET_TYPE_HANDSHAKE_HELLO
            &&& o@.packet.payload.len() == x1.len() + CHALLENGE_SIZE
            &&& o@.packet.payload.subrange(0, x1.len() as int) == x1
            &&& forall|k: int|
                x1.len() <= k < o@.packet.payload.len() ==> #[trigger] o@.packet.payload[k] == 0
        },
{
    if identity.len() <= IDENTITY_MAX_SIZE {
        let (kid, opened) = choose|kid: u32, opened: Result<(Zeta<App>, Packet), OpenError>|
            {
                &&& kid != 0
                &&& !before.in_use(kid)
                &&& #[trigger] session_opened(
                    app,
                    kid,
                    s_remote,
                    session_data,
                    current_time,
                    app_after,
                    opened,
                )
                &&& match opened {
                    Err(e) => after == before && r == Err::<(SessionHandle, Outgoing), OpenError>(
                        e,
                    ),
                    Ok((zeta, packet)) => {
                        let session = SessionView::fresh(zeta@, identity);
                        &&& after == before.with_new_session(session)
                        &&& r matches Ok((handle, outgoing))
                        &&& handle.index == before.sessions.len()
                        &&& outgoing@ == (crate::outgoing::OutgoingView {
                            to: Some(handle),
                            packet: crate::timers::hello_packet(
                                packet@.payload,
                                session.challenge,
                            ),
                            hk_send: None,
                        })
                    },
                }
            };
        law_opened(app, kid, s_remote, session_data, current_time, app_after, opened);
        if let Ok((zeta, packet)) = opened {
            let x1 = packet@.payload;
            let payload = x1 + SessionView::fresh(zeta@, identity).challenge;
            assert(payload.subrange(0, x1.len() as int) =~= x1);
        }
    }
}

/// Sending is refused for the MTU, or for the size of the data, exactly where the MTU is less than
/// the least one, or the data with its tag takes more fragments than can be numbered. In every
/// other case a session from its establishment to its end sends the data, to the id of the current
/// key, sealed with that key, under the next counter, in as few fragments as the MTU allows. No
/// other session is touched.
pub proof fn law_sending<App: ApplicationLayer>(
    before: ContextView<App>,
    settings: Settings,
    session: SessionHandle,
    mtu: usize,
    data: Seq<u8>,
    after: ContextView<App>,
    r: Result<Vec<Vec<u8>>, SendError>,
)
    requires
        before.wf(),
        before.sent(settings, session, mtu, data, after, r),
        data.len() + AES_GCM_TAG_SIZE + mtu <= usize::MAX,
    ensures
        r == Err::<Vec<Vec<u8>>, SendError>(SendError::MtuTooSmall) <==> mtu < MIN_TRANSPORT_MTU,
        r == Err::<Vec<Vec<u8>>, SendError>(SendError::DataTooLarge) <==> mtu >= MIN_TRANSPORT_MTU
            && data.len() + AES_GCM_TAG_SIZE > MAX_FRAGMENTS * (mtu - HEADER_SIZE),
        mtu >= MIN_TRANSPORT_MTU && data.len() + AES_GCM_TAG_SIZE <= MAX_FRAGMENTS * (mtu
            - HEADER_SIZE) ==> match before.session(session.index as int) {
            None => r == Err::<Vec<Vec<u8>>, SendError>(SendError::SessionExpired),
            Some(s) => match s.zeta.beta {
                BetaView::Null => r == Err::<Vec<Vec<u8>>, SendError>(SendError::SessionExpired),
                BetaView::A1 { .. } => r == Err::<Vec<Vec<u8>>, SendError>(
                    SendError::SessionNotEstablished,
                ),
                BetaView::A3 { .. } => r == Err::<Vec<Vec<u8>>, SendError>(
                    SendError::SessionNotEstablished,
                ),
                _ => s.zeta.send_counter < u64::MAX ==> {
                    &&& r matches Ok(fragments)
                    &&& exists|packet: crate::zeta::PacketView|
                        {
                            &&& #[trigger] is_wire::<App>(
                                contents(fragments@),
                                packet,
                                Some(s.zeta.hk_send),
                                mtu,
                            )
                            &&& is_packet(
                                packet,
                                s.zeta.key(false).send.kid,
                                PACKET_TYPE_DATA,
                                s.zeta.send_counter,
                            )
                            &&& packet.payload == packet_sealed::<App>(
                                s.zeta.key(false).send.nk->0,
                                packet.nonce,
                                data,
                            )
                        }
                },
            },
        },
        r is Err && r != Err::<Vec<Vec<u8>>, SendError>(SendError::SessionExpired) ==> after
            == before,
        forall|j: int|
            0 <= j < before.sessions.len() && j != session.index ==> #[trigger] after.sessions[j]
                == before.sessions[j],
        after.sessions.len() == before.sessions.len(),
        after.handshakes == before.handshakes,
        after.fragments == before.fragments,
        r is Ok ==> {
            let s = before.sessions[session.index as int]->0;
            let uses = s.zeta.send_counter - s.zeta.key_creation_counter;
            if uses < settings.expire_after_uses {
                &&& after.session(session.index as int) matches Some(now)
                &&& now == (SessionView { zeta: now.zeta, ..s })
                &&& now.zeta.beta == s.zeta.beta
                &&& now.zeta.send_counter == s.zeta.send_counter + 1
                &&& now.zeta.keys == s.zeta.keys
                &&& now.zeta.key_index == s.zeta.key_index
                &&& now.zeta.ratchet_states == s.zeta.ratchet_states
                &&& now.zeta.resend_timer == s.zeta.resend_timer
                &&& same_ends(now.zeta, s.zeta)
                &&& now.zeta.timeout_timer == if uses < settings.rekey_after_uses {
                    s.zeta.timeout_timer
                } else {
                    i64::MIN
                }
            } else {
                after.session(session.index as int) is None
            }
        },
{
    if mtu >= MIN_TRANSPORT_MTU {
        lemma_fragment_count(data.len() + AES_GCM_TAG_SIZE, mtu - HEADER_SIZE);
    }
    if before.session(session.index as int) is Some {
        let s = before.sessions[session.index as int]->0;
        assert(s.wf());
    }
}

/// As many fragments as are counted hold the payload, and one fewer would not.
proof fn lemma_fragment_count(payload_len: int, payload_mtu: int)
    requires
        payload_len > 0,
        payload_mtu > 0,
        payload_len + payload_mtu <= usize::MAX,
    ensures
        fragment_count(payload_len, payload_mtu) <= MAX_FRAGMENTS <==> payload_len <= MAX_FRAGMENTS
            * payload_mtu,
        payload_len <= fragment_count(payload_len, payload_mtu) * payload_mtu,
        (fragment_count(payload_len, payload_mtu) - 1) * payload_mtu < payload_len,
{
    let count = fragment_count(payload_len, payload_mtu);
    assert(payload_len <= count * payload_mtu && (count - 1) * payload_mtu < payload_len)
        by (nonlinear_arith)
        requires
            count == (payload_len + payload_mtu - 1) / payload_mtu,
            payload_mtu > 0,
    ;
    if count <= MAX_FRAGMENTS {
        assert(count * payload_mtu <= MAX_FRAGMENTS * payload_mtu) by (nonlinear_arith)
            requires
                count <= MAX_FRAGMENTS,
                payload_mtu > 0,
        ;
    } else {
        assert((count - 1) * payload_mtu >= MAX_FRAGMENTS * payload_mtu) by (nonlinear_arith)
            requires
                count - 1 >= MAX_FRAGMENTS,
                payload_mtu > 0,
        ;
    }
}

/// A payload goes out in as few fragments as the size of a fragment allows.
pub proof fn law_fewest_fragments(payload_len: int, payload_mtu: int)
    requires
        payload_len > 0,
        payload_mtu > 0,
        payload_len + payload_mtu <= usize::MAX,
    ensures
        payload_len <= fragment_count(payload_len, payload_mtu) * payload_mtu,
        (fragment_count(payload_len, payload_mtu) - 1) * payload_mtu < payload_len,
{
    lemma_fragment_count(payload_len, payload_mtu);
}

/// A session that is closed is gone, and so are its ids, which others can get; no other session is
/// touched.
pub proof fn law_closed<App: ApplicationLayer>(
    before: ContextView<App>,
    session: SessionHandle,
    is_next: bool,
)
    requires
        before.wf(),
    ensures
        ({
            let after = before.closed(session);
            &&& after.session(session.index as int) is None
            &&& after.sessions.len() == before.sessions.len()
            &&& forall|j: int|
                0 <= j < before.sessions.len() && j != session.index
                    ==> #[trigger] after.sessions[j] == before.sessions[j]
            &&& after.handshakes == before.handshakes
            &&& after.fragments == before.fragments
            &&& before.session(session.index as int) matches Some(s) ==> (s.zeta.key(
                is_next,
            ).recv.kid matches Some(kid) ==> !after.map.contains_key(kid))
        }),
{
}

} // verus!
