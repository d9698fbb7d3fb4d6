//! Receiving packets.

use vstd::prelude::*;

use crate::application::{ApplicationLayer, IncomingSessionAction, Settings};
use crate::bytes::{append, array_at, contents, part};
use crate::challenge::challenge_for;
use crate::context::{
    handshakes_distinct, lemma_refreshed_wf, lemma_same_ids_wf, lemma_without_session_wf,
    session_view, Context, ContextView,
};
use crate::frag_cache::{cache_after, cache_sound, fragments_of, FragEntryView};
use crate::handshake_cache::{
    handshake_from, handshakes_sound, handshakes_with, lemma_handshake_from, HandshakeView,
};
use crate::outgoing::{outgoing_view, Outgoing, OutgoingView};
use crate::proto::{
    native_u32, u32_from_be_bytes, u32_from_ne_bytes, u32_of_be, AES_GCM_IV_SIZE, CHALLENGE_SIZE,
    HANDSHAKE_COMPLETION_MAX_SIZE, HANDSHAKE_HELLO_CHALLENGE_MAX_SIZE,
    HANDSHAKE_HELLO_CHALLENGE_MIN_SIZE, HANDSHAKE_RESPONSE_SIZE, HEADER_AUTH_END, HEADER_SIZE,
    KID_SIZE, MIN_PACKET_SIZE, PACKET_TYPE_CHALLENGE, PACKET_TYPE_HANDSHAKE_COMPLETION,
    PACKET_TYPE_HANDSHAKE_HELLO,
};
use crate::random::random_u64;
use crate::result::{
    error_of, fault, is_error_of, is_fault, FaultType, ReceiveError, ReceiveOk, SessionEvent,
    SessionHandle, ZetaError, FAULT_CHALLENGE_KEY_ID, FAULT_CHALLENGE_SIZE, FAULT_COMPLETION_AUTH,
    FAULT_COMPLETION_HEADER, FAULT_COMPLETION_SIZE, FAULT_COMPLETION_STAGE, FAULT_FRAGMENT_HEADER,
    FAULT_HELLO_AUTH, FAULT_HELLO_CHALLENGED, FAULT_HELLO_SIZE, FAULT_HELLO_STAGE, FAULT_KEY_ID,
    FAULT_PACKET_SIZE, FAULT_SESSION_PACKET_SIZE, FAULT_UNASSOCIATED_SIZE, FAULT_UNASSOCIATED_TYPE,
};
use crate::session_map::kids_unmapped;
use crate::session::{
    law_packet_keeps_kids, packet_of, whole_packet, Processed, Session, SessionView,
};
use crate::wire::{
    fragment_header, from_nonce, nonce_counter, nonce_type, parse_fragment_header, unprotect,
    unprotected,
};
use crate::zeta::completion::{completion_handled, packet_view};
use crate::zeta::hello::{hello_handled, StateB2, StateB2View};
use crate::zeta::{nonce, nonce_spec, Packet, PacketView, Zeta, ZsspAutomata};

verus! {

/// What came of a physical packet: what it was, the packet to answer with, and the data that was
/// received.
pub struct Received {
    pub result: Result<ReceiveOk, ReceiveError>,
    pub reply: Option<Outgoing>,
    pub data: Vec<u8>,
}

impl Received {
    /// Nothing came of the packet but an error.
    pub open spec fn fails(
        self,
        error: FaultType,
        unnatural: bool,
        session: Option<SessionHandle>,
        line: u32,
    ) -> bool {
        &&& self.result matches Err(e)
        &&& is_fault(e, error, unnatural, session, line)
        &&& self.reply is None
        &&& self.data@.len() == 0
    }

    /// The packet was taken, and there is nothing to answer.
    pub open spec fn takes(self) -> bool {
        &&& self.result == Ok::<ReceiveOk, ReceiveError>(ReceiveOk::Unassociated)
        &&& self.reply is None
        &&& self.data@.len() == 0
    }

    /// Nothing came of the packet but an error.
    fn error(e: ReceiveError) -> (r: Received)
        ensures
            r.result == Err::<ReceiveOk, ReceiveError>(e),
            r.reply is None,
            r.data@.len() == 0,
    {
        Received { result: Err(e), reply: None, data: Vec::new() }
    }

    /// Nothing came of the packet but a fault.
    fn fault(error: FaultType, unnatural: bool, session: Option<SessionHandle>, line: u32) -> (r:
        Received)
        ensures
            r.fails(error, unnatural, session, line),
    {
        Received::error(fault(error, unnatural, session, line))
    }

    /// The packet was taken, and there may be something to answer.
    fn unassociated(reply: Option<Outgoing>) -> (r: Received)
        ensures
            r.result == Ok::<ReceiveOk, ReceiveError>(ReceiveOk::Unassociated),
            r.reply == reply,
            r.data@.len() == 0,
    {
        Received { result: Ok(ReceiveOk::Unassociated), reply, data: Vec::new() }
    }
}

/// The packet to answer with, its headers protected with `hk_send`.
pub open spec fn reply_view(
    to: Option<SessionHandle>,
    packet: Option<PacketView>,
    hk_send: Seq<u8>,
) -> Option<OutgoingView> {
    match packet {
        None => None,
        Some(packet) => Some(OutgoingView { to, packet, hk_send: Some(hk_send) }),
    }
}

/// The packet that challenges the sender of a hello.
pub open spec fn challenge_packet(kid: Seq<u8>, challenge: Seq<u8>, draw: u64) -> PacketView {
    PacketView {
        kid: 0,
        nonce: nonce_spec(PACKET_TYPE_CHALLENGE, draw),
        payload: kid + challenge,
    }
}

impl<App: ApplicationLayer> SessionView<App> {
    /// The session after it was challenged. Only one that waits for the response to its hello
    /// takes note.
    pub open spec fn challenged(self, challenge: Seq<u8>) -> Self {
        if self.zeta.beta is A1 {
            SessionView { challenge, ..self }
        } else {
            self
        }
    }
}

impl<App: ApplicationLayer> ContextView<App> {
    /// `after`, `app_after` and `out` may be what comes of a fragment to the id `kid` of the
    /// session at place `i`.
    pub open spec fn session_received(
        self,
        app: App,
        i: usize,
        kid: u32,
        fragment: Seq<u8>,
        current_time: i64,
        after: Self,
        app_after: App,
        out: Received,
    ) -> bool {
        let handle = SessionHandle { index: i };
        let (session, taken) = (self.sessions[i as int]->0).fragment_taken(fragment);
        match taken {
            Err((error, unnatural, line)) => {
                &&& after == self.with_session(i, session)
                &&& app_after == app
                &&& out.fails(error, unnatural, Some(handle), line)
            },
            Ok(None) => after == self.with_session(i, session) && app_after == app && out.takes(),
            Ok(Some((n, fragments))) => match packet_of(
                nonce_type(n),
                fragments,
                HANDSHAKE_RESPONSE_SIZE as int,
            ) {
                None => {
                    &&& after == self.with_session(i, session)
                    &&& app_after == app
                    &&& out.fails(
                        FaultType::InvalidPacket,
                        true,
                        Some(handle),
                        FAULT_SESSION_PACKET_SIZE,
                    )
                },
                Some(packet) => exists|
                    kid_new: u32,
                    next: SessionView<App>,
                    r: Result<Processed, ReceiveError>,
                |
                    {
                        &&& kid_new != 0
                        &&& !self.in_use(kid_new)
                        &&& #[trigger] session.packet_processed(
                            app,
                            self.s_secret,
                            handle,
                            kid,
                            kid_new,
                            n,
                            packet,
                            current_time,
                            next,
                            app_after,
                            r,
                        )
                        &&& self.processed(i, next, r, after, out)
                    },
            },
        }
    }

    /// `after` and `out` are what comes of a packet of the session at place `i`, of which `next`
    /// and `r` came.
    pub open spec fn processed(
        self,
        i: usize,
        next: SessionView<App>,
        r: Result<Processed, ReceiveError>,
        after: Self,
        out: Received,
    ) -> bool {
        let handle = SessionHandle { index: i };
        match r {
            Err(e) => {
                &&& after == self.refreshed(i, next)
                &&& out.result == Err::<ReceiveOk, ReceiveError>(e)
                &&& out.reply is None
                &&& out.data@.len() == 0
            },
            Ok(p) => {
                &&& after == if p.event == SessionEvent::Rejected {
                    self.without_session(i)
                } else {
                    self.refreshed(i, next)
                }
                &&& out.result == Ok::<ReceiveOk, ReceiveError>(
                    ReceiveOk::Associated(handle, p.event),
                )
                &&& outgoing_view(out.reply) == reply_view(
                    Some(handle),
                    packet_view(p.reply),
                    next.zeta.hk_send,
                )
                &&& out.data@ == p.data@
            },
        }
    }

    /// `after`, `app_after` and `out` may be what comes of the completion `packet` to the id `kid`
    /// of the responder `b2`, whose handshake is no longer kept.
    pub open spec fn completion_received(
        self,
        app: App,
        b2: StateB2View<App>,
        kid: u32,
        packet: Seq<u8>,
        current_time: i64,
        after: Self,
        app_after: App,
        out: Received,
    ) -> bool {
        exists|r: Result<(Zeta<App>, Packet, bool), (ZetaError, Option<Packet>)>|
            {
                &&& #[trigger] completion_handled(
                    app,
                    b2,
                    kid,
                    packet,
                    current_time,
                    app_after,
                    r,
                )
                &&& out.data@.len() == 0
                &&& match r {
                    Err((e, d)) => {
                        &&& after == self
                        &&& out.result matches Err(x)
                        &&& is_error_of(x, e, None, FAULT_COMPLETION_AUTH, FAULT_COMPLETION_STAGE)
                        &&& outgoing_view(out.reply) == reply_view(
                            None,
                            packet_view(d),
                            b2.hk_send,
                        )
                    },
                    Ok((zeta, c1, downgraded)) => {
                        &&& after == self.with_new_session(SessionView::fresh(zeta@, seq![]))
                        &&& out.result == Ok::<ReceiveOk, ReceiveError>(
                            ReceiveOk::Associated(
                                SessionHandle { index: self.sessions.len() as usize },
                                if downgraded {
                                    SessionEvent::NewDowngradedSession
                                } else {
                                    SessionEvent::NewSession
                                },
                            ),
                        )
                        &&& outgoing_view(out.reply) == reply_view(None, Some(c1@), b2.hk_send)
                    },
                }
            }
    }

    /// `after`, `app_after` and `out` may be what comes of a fragment to the id `kid` of the
    /// handshake at place `i`.
    pub open spec fn handshake_received(
        self,
        app: App,
        i: int,
        kid: u32,
        fragment: Seq<u8>,
        current_time: i64,
        after: Self,
        app_after: App,
        out: Received,
    ) -> bool {
        let handshake = self.handshakes[i];
        let f = unprotected::<App>(handshake.b2.hk_recv, fragment);
        match fragment_header(f) {
            None => after == self && app_after == app && out.fails(
                FaultType::InvalidPacket,
                true,
                None,
                FAULT_FRAGMENT_HEADER,
            ),
            Some((no, count, n)) => if nonce_type(n) != PACKET_TYPE_HANDSHAKE_COMPLETION
                || nonce_counter(n) != 0 {
                after == self && app_after == app && out.fails(
                    FaultType::InvalidPacket,
                    true,
                    None,
                    FAULT_COMPLETION_HEADER,
                )
            } else if count > 1 {
                let kept = self.handshakes.update(
                    i,
                    HandshakeView {
                        defrag: handshake.defrag.after(n, f, no, count),
                        ..handshake
                    },
                );
                if handshake.defrag.completes(n, no, count) {
                    self.with_handshakes(kept).completion_assembled(
                        app,
                        i,
                        kid,
                        handshake.defrag.assembled(n, f, no, count),
                        current_time,
                        after,
                        app_after,
                        out,
                    )
                } else {
                    after == self.with_handshakes(kept) && app_after == app && out.takes()
                }
            } else {
                self.completion_assembled(app, i, kid, seq![f], current_time, after, app_after, out)
            },
        }
    }

    /// `after`, `app_after` and `out` may be what comes of the fragments of a completion to the id
    /// `kid` of the handshake at place `i`.
    pub open spec fn completion_assembled(
        self,
        app: App,
        i: int,
        kid: u32,
        fragments: Seq<Seq<u8>>,
        current_time: i64,
        after: Self,
        app_after: App,
        out: Received,
    ) -> bool {
        match packet_of(
            PACKET_TYPE_HANDSHAKE_COMPLETION,
            fragments,
            HANDSHAKE_COMPLETION_MAX_SIZE as int,
        ) {
            None => after == self && app_after == app && out.fails(
                FaultType::InvalidPacket,
                true,
                None,
                FAULT_COMPLETION_SIZE,
            ),
            Some(packet) => self.with_handshakes(self.handshakes.remove(i)).completion_received(
                app,
                self.handshakes[i].b2,
                kid,
                packet,
                current_time,
                after,
                app_after,
                out,
            ),
        }
    }

    /// `after`, `app_after` and `out` may be what comes of the hello `x1` with the counter `c`,
    /// which is answered.
    pub open spec fn hello_admitted(
        self,
        app: App,
        settings: Settings,
        c: u64,
        x1: Seq<u8>,
        current_time: i64,
        after: Self,
        app_after: App,
        out: Received,
    ) -> bool {
        exists|kid: u32, r: Result<(StateB2<App>, Packet), ZetaError>|
            {
                &&& kid != 0
                &&& !self.in_use(kid)
                &&& #[trigger] hello_handled(
                    app,
                    kid,
                    self.s_secret,
                    c,
                    x1,
                    app_after,
                    r,
                )
                &&& out.data@.len() == 0
                &&& match r {
                    Err(e) => {
                        &&& after == self
                        &&& out.result matches Err(x)
                        &&& is_error_of(x, e, None, FAULT_HELLO_AUTH, FAULT_HELLO_STAGE)
                        &&& out.reply is None
                    },
                    Ok((b2, x2)) => {
                        &&& after == self.with_handshakes(
                            handshakes_with(
                                self.handshakes,
                                b2@,
                                (current_time + settings.handshake_timeout) as i64,
                            ),
                        )
                        &&& out.result == Ok::<ReceiveOk, ReceiveError>(ReceiveOk::Unassociated)
                        &&& outgoing_view(out.reply) == reply_view(
                            None,
                            Some(x2@),
                            b2@.hk_send,
                        )
                    },
                }
            }
    }

    /// `after`, `app_after` and `out` may be what comes of the hello `packet`, together with an
    /// answer to a challenge, from this address.
    pub open spec fn hello_received(
        self,
        app: App,
        address: Seq<u8>,
        n: Seq<u8>,
        packet: Seq<u8>,
        current_time: i64,
        after: Self,
        app_after: App,
        out: Received,
    ) -> bool {
        let start = packet.len() - CHALLENGE_SIZE;
        let challenge = challenge_for::<App>(self.salt, address);
        if !(HANDSHAKE_HELLO_CHALLENGE_MIN_SIZE <= packet.len()
            <= HANDSHAKE_HELLO_CHALLENGE_MAX_SIZE) {
            after == self && app_after == app && out.fails(
                FaultType::InvalidPacket,
                true,
                None,
                FAULT_HELLO_SIZE,
            )
        } else {
            exists|action: IncomingSessionAction, next: App|
                {
                    &&& #[trigger] app.may_take_incoming(action, next)
                    &&& if action == IncomingSessionAction::Drop {
                        &&& after == self
                        &&& app_after == next
                        &&& out.result == Err::<ReceiveOk, ReceiveError>(ReceiveError::Rejected)
                        &&& out.reply is None
                        &&& out.data@.len() == 0
                    } else if action == IncomingSessionAction::Challenge && packet.subrange(
                        start,
                        packet.len() as int,
                    ) != challenge {
                        &&& after == self
                        &&& app_after == next
                        &&& out.result matches Err(e)
                        &&& is_fault(
                            e,
                            FaultType::FailedAuth,
                            false,
                            None,
                            FAULT_HELLO_CHALLENGED,
                        )
                        &&& out.data@.len() == 0
                        &&& out.reply matches Some(o)
                        &&& o@.packet.payload.len() == KID_SIZE + CHALLENGE_SIZE
                        &&& exists|draw: u64|
                            outgoing_view(out.reply) == Some(
                                OutgoingView {
                                    to: None,
                                    packet: #[trigger] challenge_packet(
                                        packet.subrange(0, KID_SIZE as int),
                                        challenge,
                                        draw,
                                    ),
                                    hk_send: None,
                                },
                            )
                    } else {
                        self.hello_admitted(
                            next,
                            app.settings_spec(),
                            nonce_counter(n),
                            packet.subrange(0, start),
                            current_time,
                            after,
                            app_after,
                            out,
                        )
                    }
                }
        }
    }

    /// `after` and `out` may be what comes of the challenge `packet`.
    pub open spec fn challenge_received(self, packet: Seq<u8>, after: Self, out: Received) -> bool {
        if packet.len() != KID_SIZE + CHALLENGE_SIZE {
            after == self && out.fails(
                FaultType::InvalidPacket,
                true,
                None,
                FAULT_CHALLENGE_SIZE,
            )
        } else {
            let kid = u32_of_be(packet.subrange(0, KID_SIZE as int));
            match (if kid == 0 {
                None
            } else {
                self.session_of(kid)
            }) {
                None => after == self && out.fails(
                    FaultType::UnknownLocalKeyId,
                    true,
                    None,
                    FAULT_CHALLENGE_KEY_ID,
                ),
                Some(i) => {
                    &&& after == self.with_session(
                        i,
                        (self.sessions[i as int]->0).challenged(
                            packet.subrange(KID_SIZE as int, packet.len() as int),
                        ),
                    )
                    &&& out.takes()
                },
            }
        }
    }

    /// `after`, `app_after` and `out` may be what comes of the fragments of a packet that belongs
    /// to no session.
    pub open spec fn unassociated_assembled(
        self,
        app: App,
        address: Seq<u8>,
        n: Seq<u8>,
        fragments: Seq<Seq<u8>>,
        current_time: i64,
        after: Self,
        app_after: App,
        out: Received,
    ) -> bool {
        match packet_of(nonce_type(n), fragments, HANDSHAKE_HELLO_CHALLENGE_MAX_SIZE as int) {
            None => after == self && app_after == app && out.fails(
                FaultType::InvalidPacket,
                true,
                None,
                FAULT_UNASSOCIATED_SIZE,
            ),
            Some(packet) => if nonce_type(n) == PACKET_TYPE_HANDSHAKE_HELLO {
                self.hello_received(app, address, n, packet, current_time, after, app_after, out)
            } else {
                app_after == app && self.challenge_received(packet, after, out)
            },
        }
    }

    /// `after`, `app_after` and `out` may be what comes of a fragment that is addressed to no
    /// session.
    pub open spec fn unassociated_received(
        self,
        app: App,
        address: Seq<u8>,
        fragment: Seq<u8>,
        current_time: i64,
        after: Self,
        app_after: App,
        out: Received,
    ) -> bool {
        match fragment_header(fragment) {
            None => after == self && app_after == app && out.fails(
                FaultType::InvalidPacket,
                true,
                None,
                FAULT_FRAGMENT_HEADER,
            ),
            Some((no, count, n)) => if nonce_type(n) != PACKET_TYPE_HANDSHAKE_HELLO && nonce_type(
                n,
            ) != PACKET_TYPE_CHALLENGE {
                after == self && app_after == app && out.fails(
                    FaultType::InvalidPacket,
                    true,
                    None,
                    FAULT_UNASSOCIATED_TYPE,
                )
            } else if count > 1 {
                let kept = self.with_fragments(
                    cache_after(
                        self.fragments,
                        n,
                        address,
                        (current_time + app.settings_spec().fragment_assembly_timeout) as i64,
                        fragment,
                        no,
                        count,
                    ),
                );
                let before = fragments_of(self.fragments, n, address);
                if before.completes(n, no, count) {
                    kept.unassociated_assembled(
                        app,
                        address,
                        n,
                        before.assembled(n, fragment, no, count),
                        current_time,
                        after,
                        app_after,
                        out,
                    )
                } else {
                    after == kept && app_after == app && out.takes()
                }
            } else {
                self.unassociated_assembled(
                    app,
                    address,
                    n,
                    seq![fragment],
                    current_time,
                    after,
                    app_after,
                    out,
                )
            },
        }
    }

    /// `after`, `app_after` and `out` may be what comes of a fragment to the id `kid`.
    pub open spec fn fragment_received(
        self,
        app: App,
        kid: u32,
        address: Seq<u8>,
        fragment: Seq<u8>,
        current_time: i64,
        after: Self,
        app_after: App,
        out: Received,
    ) -> bool {
        if kid == 0 {
            self.unassociated_received(app, address, fragment, current_time, after, app_after, out)
        } else {
            match (self.session_of(kid), handshake_from(self.handshakes, kid, 0)) {
                (Some(i), _) => self.session_received(
                    app,
                    i,
                    kid,
                    fragment,
                    current_time,
                    after,
                    app_after,
                    out,
                ),
                (None, Some(i)) => self.handshake_received(
                    app,
                    i,
                    kid,
                    fragment,
                    current_time,
                    after,
                    app_after,
                    out,
                ),
                (None, None) => after == self && app_after == app && out.fails(
                    FaultType::UnknownLocalKeyId,
                    false,
                    None,
                    FAULT_KEY_ID,
                ),
            }
        }
    }

    /// `after`, `app_after` and `out` may be what comes of a physical packet. The id that it is
    /// addressed to stands at its start, in the byte order of the machine.
    pub open spec fn packet_received(
        self,
        app: App,
        address: Seq<u8>,
        fragment: Seq<u8>,
        current_time: i64,
        after: Self,
        app_after: App,
        out: Received,
    ) -> bool {
        if fragment.len() < MIN_PACKET_SIZE {
            after == self && app_after == app && out.fails(
                FaultType::InvalidPacket,
                false,
                None,
                FAULT_PACKET_SIZE,
            )
        } else {
            exists|kid: u32|
                {
                    &&& #[trigger] native_u32(kid, fragment.subrange(0, KID_SIZE as int))
                    &&& self.fragment_received(
                        app,
                        kid,
                        address,
                        fragment,
                        current_time,
                        after,
                        app_after,
                        out,
                    )
                }
        }
    }
}

/// A context with another set of packets that are being put together has room if it had.
proof fn lemma_has_room<App: ApplicationLayer>(a: ContextView<App>, b: ContextView<App>)
    requires
        a.has_room(),
        a.map == b.map,
        a.handshakes == b.handshakes,
    ensures
        b.has_room(),
{
    let kid = choose|kid: u32| kid != 0 && !#[trigger] a.in_use(kid);
    assert(!b.in_use(kid));
}

/// A context with other packets that are being put together stays well formed.
proof fn lemma_fragments_wf<App: ApplicationLayer>(
    context: ContextView<App>,
    fragments: Seq<FragEntryView>,
)
    requires
        context.wf(),
        cache_sound(fragments),
    ensures
        context.with_fragments(fragments).wf(),
{
    let after = context.with_fragments(fragments);
    assert forall|j: int| 0 <= j < after.sessions.len() implies ((
    #[trigger] after.sessions[j]) matches Some(s) ==> s.wf() && after.registered(j, s.zeta)
        && after.scheduled(j)) by {
        if after.sessions[j] is Some {
            assert(context.sessions[j] is Some);
            assert(context.registered(j, (after.sessions[j]->0).zeta));
            assert(context.scheduled(j));
            let k = choose|k: int| 0 <= k < context.queue.len() && context.queue[k].1 == j;
            assert(after.queue[k].1 == j);
        }
    }
}

/// A context whose handshake at place `i` has gone on to collect fragments stays well formed.
proof fn lemma_handshake_kept_wf<App: ApplicationLayer>(
    context: ContextView<App>,
    i: int,
    kept: Seq<HandshakeView<App>>,
)
    requires
        context.wf(),
        0 <= i < context.handshakes.len(),
        kept.len() == context.handshakes.len(),
        forall|j: int|
            0 <= j < kept.len() ==> (#[trigger] kept[j]).b2 == context.handshakes[j].b2,
        handshakes_sound(kept),
    ensures
        context.with_handshakes(kept).wf(),
{
    let after = context.with_handshakes(kept);
    assert forall|j: int| 0 <= j < after.sessions.len() implies ((
    #[trigger] after.sessions[j]) matches Some(s) ==> s.wf() && after.registered(j, s.zeta)
        && after.scheduled(j)) by {
        if after.sessions[j] is Some {
            assert(context.sessions[j] is Some);
            assert(context.registered(j, (after.sessions[j]->0).zeta));
            assert(context.scheduled(j));
            let k = choose|k: int| 0 <= k < context.queue.len() && context.queue[k].1 == j;
            assert(after.queue[k].1 == j);
        }
    }
    assert forall|a: int, b: int| 0 <= a < b < kept.len() implies (
    #[trigger] kept[a]).b2.kid_recv != (#[trigger] kept[b]).b2.kid_recv by {
        assert(context.handshakes[a].b2.kid_recv != context.handshakes[b].b2.kid_recv);
    }
    assert forall|j: int| 0 <= j < kept.len() implies !after.map.contains_key(
        (#[trigger] kept[j]).b2.kid_recv,
    ) by {
        assert(!context.map.contains_key(context.handshakes[j].b2.kid_recv));
    }
}

/// A context that has ended the handshake at place `i` is well formed, and the id of that
/// handshake is not in use.
proof fn lemma_handshake_ended_wf<App: ApplicationLayer>(context: ContextView<App>, i: int)
    requires
        context.wf(),
        0 <= i < context.handshakes.len(),
    ensures
        context.with_handshakes(context.handshakes.remove(i)).wf(),
        !context.with_handshakes(context.handshakes.remove(i)).in_use(
            context.handshakes[i].b2.kid_recv,
        ),
{
    let left = context.handshakes.remove(i);
    let after = context.with_handshakes(left);
    let kid = context.handshakes[i].b2.kid_recv;
    assert forall|j: int| 0 <= j < left.len() implies #[trigger] left[j]
        == context.handshakes[if j < i {
        j
    } else {
        j + 1
    }] by {
    }
    assert forall|j: int| 0 <= j < after.sessions.len() implies ((
    #[trigger] after.sessions[j]) matches Some(s) ==> s.wf() && after.registered(j, s.zeta)
        && after.scheduled(j)) by {
        if after.sessions[j] is Some {
            assert(context.sessions[j] is Some);
            assert(context.registered(j, (after.sessions[j]->0).zeta));
            assert(context.scheduled(j));
            let k = choose|k: int| 0 <= k < context.queue.len() && context.queue[k].1 == j;
            assert(after.queue[k].1 == j);
        }
    }
    assert(handshakes_sound(left)) by {
        assert forall|j: int| 0 <= j < left.len() implies (#[trigger] left[j]).b2.wf()
            && left[j].defrag.sound() by {
            let k = if j < i {
                j
            } else {
                j + 1
            };
            assert(context.handshakes[k].b2.wf());
        }
    }
    assert(handshakes_distinct(left)) by {
        assert forall|a: int, b: int| 0 <= a < b < left.len() implies (
        #[trigger] left[a]).b2.kid_recv != (#[trigger] left[b]).b2.kid_recv by {
            let k = if a < i {
                a
            } else {
                a + 1
            };
            let l = if b < i {
                b
            } else {
                b + 1
            };
            assert(context.handshakes[k].b2.kid_recv != context.handshakes[l].b2.kid_recv);
        }
    }
    assert forall|j: int| 0 <= j < left.len() implies !after.map.contains_key(
        (#[trigger] left[j]).b2.kid_recv,
    ) && left[j].b2.kid_recv != kid by {
        let k = if j < i {
            j
        } else {
            j + 1
        };
        assert(!context.map.contains_key(context.handshakes[k].b2.kid_recv));
        if k < i {
            assert(context.handshakes[k].b2.kid_recv != context.handshakes[i].b2.kid_recv);
        } else {
            assert(context.handshakes[i].b2.kid_recv != context.handshakes[k].b2.kid_recv);
        }
    }
    lemma_handshake_from(left, kid, 0);
    assert(!context.map.contains_key(context.handshakes[i].b2.kid_recv));
}

/// A context that begins a handshake with an id that is not in use stays well formed.
proof fn lemma_handshake_begun_wf<App: ApplicationLayer>(
    context: ContextView<App>,
    b2: StateB2View<App>,
    expiry: i64,
)
    requires
        context.wf(),
        b2.wf(),
        !context.in_use(b2.kid_recv),
    ensures
        context.with_handshakes(handshakes_with(context.handshakes, b2, expiry)).wf(),
{
    lemma_handshake_from(context.handshakes, b2.kid_recv, 0);
    if context.handshakes.len() >= crate::proto::MAX_UNASSOCIATED_HANDSHAKES {
        lemma_handshake_ended_wf(context, 0);
    }
    let base = if context.handshakes.len() >= crate::proto::MAX_UNASSOCIATED_HANDSHAKES {
        context.handshakes.remove(0)
    } else {
        context.handshakes
    };
    let from = context.with_handshakes(base);
    let all = handshakes_with(context.handshakes, b2, expiry);
    let after = context.with_handshakes(all);
    assert(from.wf());
    assert forall|j: int| 0 <= j < base.len() implies (#[trigger] base[j]).b2.kid_recv
        != b2.kid_recv by {
        let k = if base.len() < context.handshakes.len() {
            j + 1
        } else {
            j
        };
        assert(base[j] == context.handshakes[k]);
    }
    assert forall|j: int| 0 <= j < after.sessions.len() implies ((
    #[trigger] after.sessions[j]) matches Some(s) ==> s.wf() && after.registered(j, s.zeta)
        && after.scheduled(j)) by {
        if after.sessions[j] is Some {
            assert(context.sessions[j] is Some);
            assert(context.registered(j, (after.sessions[j]->0).zeta));
            assert(context.scheduled(j));
            let k = choose|k: int| 0 <= k < context.queue.len() && context.queue[k].1 == j;
            assert(after.queue[k].1 == j);
        }
    }
    assert forall|j: int| 0 <= j < all.len() implies (#[trigger] all[j]).b2.wf()
        && all[j].defrag.sound() && !after.map.contains_key(all[j].b2.kid_recv) by {
        if j < base.len() {
            assert(all[j] == base[j]);
            assert(from.handshakes[j].b2.wf());
        }
    }
    assert forall|a: int, b: int| 0 <= a < b < all.len() implies (#[trigger] all[a]).b2.kid_recv
        != (#[trigger] all[b]).b2.kid_recv by {
        assert(all[a] == base[a]);
        if b < base.len() {
            assert(all[b] == base[b]);
            assert(from.handshakes[a].b2.kid_recv != from.handshakes[b].b2.kid_recv);
        }
    }
}

impl<App: ApplicationLayer> Context<App> {
    /// Takes up what came of a packet of the session at place `i`, which is out of its place.
    fn conclude_packet(
        &mut self,
        i: usize,
        session: Session<App>,
        r: Result<Processed, ReceiveError>,
        Ghost(before): Ghost<ContextView<App>>,
        Ghost(kid_new): Ghost<u32>,
    ) -> (out: Received)
        requires
            before.wf(),
            before.session(i as int) matches Some(was) && was.keeps_kids(session@, kid_new)
                && old(self)@ == (ContextView {
                sessions: before.sessions.update(i as int, None),
                map: kids_unmapped(before.map, was.zeta),
                ..before
            }),
            !before.in_use(kid_new),
            session@.wf(),
            r matches Ok(p) ==> (p.reply matches Some(reply) ==> reply@.measured()),
        ensures
            before.processed(i, session@, r, final(self)@, out),
            final(self)@.wf(),
            out.reply matches Some(reply) ==> reply@.packet.measured(),
    {
        let ghost view = session@;
        let handle = SessionHandle { index: i };
        let rejected = match &r {
            Ok(p) => p.event == SessionEvent::Rejected,
            Err(_) => false,
        };
        let hk_send = session.zeta.hk_send.clone();
        if rejected {
            self.0.session_queue.remove(i);
            assert(self@ == before.without_session(i));
            proof {
                lemma_without_session_wf(before, i);
            }
        } else {
            let timer = session.zeta.next_timer();
            self.0.session_map.add_kids(&session.zeta, i);
            self.0.session_queue.change_priority(i, timer);
            self.put_session(i, session);
            assert(self@.sessions =~= before.refreshed(i, view).sessions);
            proof {
                lemma_refreshed_wf(before, i, view, kid_new);
            }
        }
        match r {
            Err(e) => Received::error(e),
            Ok(p) => {
                let reply = match p.reply {
                    Some(packet) => Some(
                        Outgoing { to: Some(handle), packet, hk_send: Some(hk_send) },
                    ),
                    None => None,
                };
                Received {
                    result: Ok(ReceiveOk::Associated(handle, p.event)),
                    reply,
                    data: p.data,
                }
            },
        }
    }

    /// Receives a fragment to the id `kid` of the session at place `i`.
    fn receive_session(
        &mut self,
        app: &mut App,
        i: usize,
        kid: u32,
        fragment: Vec<u8>,
        current_time: i64,
    ) -> (out: Received)
        requires
            old(self)@.wf(),
            old(self)@.has_room(),
            old(self)@.session(i as int) is Some,
            fragment@.len() >= HEADER_AUTH_END,
            old(app).settings_spec().valid(),
            old(app).settings_spec().reckons_from(current_time),
        ensures
            old(self)@.session_received(
                *old(app),
                i,
                kid,
                fragment@,
                current_time,
                final(self)@,
                *final(app),
                out,
            ),
            final(app).settings_spec() == old(app).settings_spec(),
            final(self)@.wf(),
            out.reply matches Some(reply) ==> reply@.packet.measured(),
    {
        let ghost before = self@;
        let ghost was = before.sessions[i as int]->0;
        let handle = SessionHandle { index: i };
        let kid_new = self.draw_kid();
        let mut session = self.take_session(i);
        assert(was.wf());
        let taken = session.take_fragment(handle, fragment);
        let ghost taking = session@;
        assert(taking.zeta == was.zeta);
        proof {
            lemma_same_ids_wf(before, i, taking);
        }
        let taken = match taken {
            Err(e) => {
                self.put_session(i, session);
                assert(self@.sessions =~= before.with_session(i, taking).sessions);
                return Received::error(e);
            },
            Ok(None) => {
                self.put_session(i, session);
                assert(self@.sessions =~= before.with_session(i, taking).sessions);
                return Received::unassociated(None);
            },
            Ok(Some(taken)) => taken,
        };
        let (packet_type, _) = from_nonce(&taken.nonce);
        let packet = match whole_packet(packet_type, &taken.fragments, HANDSHAKE_RESPONSE_SIZE) {
            Some(packet) => packet,
            None => {
                self.put_session(i, session);
                assert(self@.sessions =~= before.with_session(i, taking).sessions);
                return Received::fault(
                    FaultType::InvalidPacket,
                    true,
                    Some(handle),
                    FAULT_SESSION_PACKET_SIZE,
                );
            },
        };
        let ghost whole = packet@;
        self.0.session_map.remove_kids(&session.zeta);
        let r = session.process_packet(
            app,
            &mut self.0.rng,
            &self.0.s_secret,
            handle,
            kid,
            kid_new,
            taken.nonce,
            packet,
            current_time,
        );
        proof {
            law_packet_keeps_kids(
                *old(app),
                taking,
                before.s_secret,
                handle,
                kid,
                kid_new,
                taken.nonce@,
                whole,
                current_time,
                session@,
                *app,
                r,
            );
            assert(was.keeps_kids(session@, kid_new));
        }
        self.conclude_packet(i, session, r, Ghost(before), Ghost(kid_new))
    }

    /// Receives the completion `packet` to the id `kid` of the responder `b2`, whose handshake is
    /// no longer kept.
    fn receive_completion(
        &mut self,
        app: &mut App,
        b2: StateB2<App>,
        kid: u32,
        packet: Vec<u8>,
        current_time: i64,
    ) -> (out: Received)
        requires
            old(self)@.wf(),
            b2@.wf(),
            !old(self)@.in_use(b2@.kid_recv),
            old(app).settings_spec().valid(),
            old(app).settings_spec().reckons_from(current_time),
        ensures
            old(self)@.completion_received(
                *old(app),
                b2@,
                kid,
                packet@,
                current_time,
                final(self)@,
                *final(app),
                out,
            ),
            final(app).settings_spec() == old(app).settings_spec(),
            final(self)@.wf(),
            out.reply matches Some(reply) ==> reply@.packet.measured(),
    {
        let ghost whole = packet@;
        let r = Zeta::trans_b2_to_s1(&b2, app, kid, packet, current_time);
        assert(completion_handled(*old(app), b2@, kid, whole, current_time, *app, r));
        match r {
            Err((e, d)) => {
                let reply = match d {
                    Some(packet) => Some(
                        Outgoing { to: None, packet, hk_send: Some(b2.hk_send) },
                    ),
                    None => None,
                };
                let e = error_of(e, None, FAULT_COMPLETION_AUTH, FAULT_COMPLETION_STAGE);
                Received { result: Err(e), reply, data: Vec::new() }
            },
            Ok((zeta, c1, downgraded)) => {
                let event = if downgraded {
                    SessionEvent::NewDowngradedSession
                } else {
                    SessionEvent::NewSession
                };
                let identity: Vec<u8> = Vec::new();
                assert(identity@ =~= seq![]);
                let session = Session::new(zeta, identity);
                let i = self.add_session(session);
                let handle = SessionHandle { index: i };
                Received {
                    result: Ok(ReceiveOk::Associated(handle, event)),
                    reply: Some(Outgoing { to: None, packet: c1, hk_send: Some(b2.hk_send) }),
                    data: Vec::new(),
                }
            },
        }
    }

    /// Receives the fragments of a completion to the id `kid` of the handshake at place `i`.
    fn receive_completion_fragments(
        &mut self,
        app: &mut App,
        i: usize,
        kid: u32,
        fragments: Vec<Vec<u8>>,
        current_time: i64,
    ) -> (out: Received)
        requires
            old(self)@.wf(),
            i < old(self)@.handshakes.len(),
            forall|k: int| 0 <= k < fragments@.len() ==> (#[trigger] fragments@[k])@.len()
                >= HEADER_SIZE,
            old(app).settings_spec().valid(),
            old(app).settings_spec().reckons_from(current_time),
        ensures
            old(self)@.completion_assembled(
                *old(app),
                i as int,
                kid,
                contents(fragments@),
                current_time,
                final(self)@,
                *final(app),
                out,
            ),
            final(app).settings_spec() == old(app).settings_spec(),
            final(self)@.wf(),
            out.reply matches Some(reply) ==> reply@.packet.measured(),
    {
        let ghost before = self@;
        let packet = match whole_packet(
            PACKET_TYPE_HANDSHAKE_COMPLETION,
            &fragments,
            HANDSHAKE_COMPLETION_MAX_SIZE,
        ) {
            Some(packet) => packet,
            None => {
                return Received::fault(
                    FaultType::InvalidPacket,
                    true,
                    None,
                    FAULT_COMPLETION_SIZE,
                );
            },
        };
        // We must guarantee that this incoming handshake is processed once and only
        // once. This prevents catastrophic nonce reuse.
        let b2 = self.0.unassociated_handshake_states.remove(i);
        proof {
            lemma_handshake_ended_wf(before, i as int);
            assert(before.handshakes[i as int].b2.wf());
            assert(self@ == before.with_handshakes(before.handshakes.remove(i as int)));
        }
        self.receive_completion(app, b2, kid, packet, current_time)
    }

    /// Receives a fragment to the id `kid` of the handshake at place `i`.
    fn receive_handshake(
        &mut self,
        app: &mut App,
        i: usize,
        kid: u32,
        fragment: Vec<u8>,
        current_time: i64,
    ) -> (out: Received)
        requires
            old(self)@.wf(),
            i < old(self)@.handshakes.len(),
            fragment@.len() >= HEADER_AUTH_END,
            old(app).settings_spec().valid(),
            old(app).settings_spec().reckons_from(current_time),
        ensures
            old(self)@.handshake_received(
                *old(app),
                i as int,
                kid,
                fragment@,
                current_time,
                final(self)@,
                *final(app),
                out,
            ),
            final(app).settings_spec() == old(app).settings_spec(),
            final(self)@.wf(),
            out.reply matches Some(reply) ==> reply@.packet.measured(),
    {
        let ghost before = self@;
        let handshakes = &self.0.unassociated_handshake_states;
        assert(handshakes@[i as int] == handshakes.entries@[i as int]@);
        let fragment = unprotect::<App>(&handshakes.entries[i].b2.hk_recv, fragment);
        let ghost f = fragment@;
        let (no, count, n) = match parse_fragment_header(fragment.as_slice(), None) {
            Ok(parsed) => parsed,
            Err(e) => return Received::error(e),
        };
        let (packet_type, counter) = from_nonce(&n);
        if packet_type != PACKET_TYPE_HANDSHAKE_COMPLETION || counter != 0 {
            return Received::fault(FaultType::InvalidPacket, true, None, FAULT_COMPLETION_HEADER);
        }
        if count > 1 {
            let assembled = self.0.unassociated_handshake_states.assemble(
                i,
                &n,
                fragment,
                no,
                count,
            );
            proof {
                lemma_handshake_kept_wf(before, i as int, self@.handshakes);
                assert(self@ == before.with_handshakes(self@.handshakes));
            }
            match assembled {
                None => Received::unassociated(None),
                Some(fragments) => self.receive_completion_fragments(
                    app,
                    i,
                    kid,
                    fragments,
                    current_time,
                ),
            }
        } else {
            let mut fragments: Vec<Vec<u8>> = Vec::new();
            fragments.push(fragment);
            assert(contents(fragments@) =~= seq![f]);
            self.receive_completion_fragments(app, i, kid, fragments, current_time)
        }
    }

    /// Receives the hello `x1` with the counter `c`, which is to be answered.
    fn admit_hello(
        &mut self,
        app: &mut App,
        c: u64,
        x1: Vec<u8>,
        current_time: i64,
    ) -> (out: Received)
        requires
            old(self)@.wf(),
            old(self)@.has_room(),
            old(app).settings_spec().valid(),
            old(app).settings_spec().reckons_from(current_time),
        ensures
            old(self)@.hello_admitted(
                *old(app),
                old(app).settings_spec(),
                c,
                x1@,
                current_time,
                final(self)@,
                *final(app),
                out,
            ),
            final(app).settings_spec() == old(app).settings_spec(),
            final(self)@.wf(),
            out.reply matches Some(reply) ==> reply@.packet.measured(),
    {
        let ghost before = self@;
        let ghost hello = x1@;
        let kid = self.draw_kid();
        let r = Zeta::trans_null_to_b2(
            app,
            &mut self.0.rng,
            kid,
            &self.0.s_secret,
            c,
            x1,
        );
        assert(self@ == before);
        assert(hello_handled(*old(app), kid, before.s_secret, c, hello, *app, r));
        match r {
            Err(e) => Received::error(
                error_of(e, None, FAULT_HELLO_AUTH, FAULT_HELLO_STAGE),
            ),
            Ok((b2, x2)) => {
                let settings = app.settings();
                let expiry: i64 = current_time + settings.handshake_timeout;
                let hk_send = b2.hk_send.clone();
                proof {
                    lemma_handshake_begun_wf(before, b2@, expiry);
                }
                self.0.unassociated_handshake_states.insert(b2, expiry);
                assert(self@ == before.with_handshakes(self@.handshakes));
                Received::unassociated(
                    Some(Outgoing { to: None, packet: x2, hk_send: Some(hk_send) }),
                )
            },
        }
    }

    /// Receives the hello `packet`, together with an answer to a challenge, from this address.
    fn receive_hello(
        &mut self,
        app: &mut App,
        address: &[u8],
        n: &[u8; AES_GCM_IV_SIZE],
        packet: Vec<u8>,
        current_time: i64,
    ) -> (out: Received)
        requires
            old(self)@.wf(),
            old(self)@.has_room(),
            old(app).settings_spec().valid(),
            old(app).settings_spec().reckons_from(current_time),
        ensures
            old(self)@.hello_received(
                *old(app),
                address@,
                n@,
                packet@,
                current_time,
                final(self)@,
                *final(app),
                out,
            ),
            final(app).settings_spec() == old(app).settings_spec(),
            final(self)@.wf(),
            out.reply matches Some(reply) ==> reply@.packet.measured(),
    {
        if packet.len() < HANDSHAKE_HELLO_CHALLENGE_MIN_SIZE || packet.len()
            > HANDSHAKE_HELLO_CHALLENGE_MAX_SIZE {
            return Received::fault(FaultType::InvalidPacket, true, None, FAULT_HELLO_SIZE);
        }
        // Process recv challenge layer.
        let challenge_start: usize = packet.len() - CHALLENGE_SIZE;
        let response = array_at::<CHALLENGE_SIZE>(packet.as_slice(), challenge_start);
        assert(response@ =~= packet@.subrange(challenge_start as int, packet@.len() as int));
        let action = app.incoming_session();
        assert(old(app).may_take_incoming(action, *app));
        match action {
            IncomingSessionAction::Allow => {},
            IncomingSessionAction::Challenge => {
                if let Err(challenge) = self.0.challenge.process_hello::<App>(address, &response) {
                    let mut payload = part(packet.as_slice(), 0, KID_SIZE);
                    append(&mut payload, challenge.as_slice());
                    let draw = random_u64(&mut self.0.rng);
                    let reply = Outgoing {
                        to: None,
                        packet: Packet(0, nonce(PACKET_TYPE_CHALLENGE, draw), payload),
                        hk_send: None,
                    };
                    assert(reply@.packet == challenge_packet(
                        packet@.subrange(0, KID_SIZE as int),
                        challenge@,
                        draw,
                    ));
                    // If we issue a challenge the first hello packet will always fail.
                    let e = fault(FaultType::FailedAuth, false, None, FAULT_HELLO_CHALLENGED);
                    return Received { result: Err(e), reply: Some(reply), data: Vec::new() };
                }
            },
            IncomingSessionAction::Drop => return Received::error(ReceiveError::Rejected),
        }
        // Process recv zeta layer.
        let (_, counter) = from_nonce(n);
        let x1 = part(packet.as_slice(), 0, challenge_start);
        self.admit_hello(app, counter, x1, current_time)
    }

    /// Receives the challenge `packet`.
    fn receive_challenge(&mut self, packet: Vec<u8>) -> (out: Received)
        requires
            old(self)@.wf(),
        ensures
            old(self)@.challenge_received(packet@, final(self)@, out),
            final(self)@.wf(),
            out.reply is None,
    {
        let ghost before = self@;
        if packet.len() != KID_SIZE + CHALLENGE_SIZE {
            return Received::fault(FaultType::InvalidPacket, true, None, FAULT_CHALLENGE_SIZE);
        }
        let kid = u32_from_be_bytes(vstd::slice::slice_subrange(packet.as_slice(), 0, KID_SIZE));
        if kid != 0 {
            if let Some(i) = self.find_session(kid) {
                let challenge = array_at::<CHALLENGE_SIZE>(packet.as_slice(), KID_SIZE);
                assert(challenge@ =~= packet@.subrange(KID_SIZE as int, packet@.len() as int));
                let ghost was = before.sessions[i as int]->0;
                let mut session = self.take_session(i);
                assert(was.wf());
                let is_a1 = match &session.zeta.beta {
                    ZsspAutomata::A1 { .. } => true,
                    _ => false,
                };
                if is_a1 {
                    session.challenge = challenge;
                }
                assert(session@ == was.challenged(challenge@));
                proof {
                    lemma_same_ids_wf(before, i, session@);
                }
                let ghost view = session@;
                self.put_session(i, session);
                assert(self@.sessions =~= before.with_session(i, view).sessions);
                return Received::unassociated(None);
            }
        }
        Received::fault(FaultType::UnknownLocalKeyId, true, None, FAULT_CHALLENGE_KEY_ID)
    }

    /// The place of the session that receives under the id `kid`.
    fn find_session(&self, kid: u32) -> (r: Option<usize>)
        ensures
            r == self@.session_of(kid),
    {
        match self.0.session_map.get(kid) {
            None => None,
            Some(i) => {
                if i >= self.0.sessions.len() {
                    return None;
                }
                assert(self@.sessions[i as int] == session_view(self.0.sessions@[i as int]));
                if self.0.sessions[i].is_some() {
                    Some(i)
                } else {
                    None
                }
            },
        }
    }

    /// Receives the fragments of a packet that belongs to no session.
    fn receive_unassociated_fragments(
        &mut self,
        app: &mut App,
        address: &[u8],
        n: &[u8; AES_GCM_IV_SIZE],
        fragments: Vec<Vec<u8>>,
        current_time: i64,
    ) -> (out: Received)
        requires
            old(self)@.wf(),
            old(self)@.has_room(),
            forall|k: int| 0 <= k < fragments@.len() ==> (#[trigger] fragments@[k])@.len()
                >= HEADER_SIZE,
            old(app).settings_spec().valid(),
            old(app).settings_spec().reckons_from(current_time),
        ensures
            old(self)@.unassociated_assembled(
                *old(app),
                address@,
                n@,
                contents(fragments@),
                current_time,
                final(self)@,
                *final(app),
                out,
            ),
            final(app).settings_spec() == old(app).settings_spec(),
            final(self)@.wf(),
            out.reply matches Some(reply) ==> reply@.packet.measured(),
    {
        let (packet_type, _) = from_nonce(n);
        match whole_packet(packet_type, &fragments, HANDSHAKE_HELLO_CHALLENGE_MAX_SIZE) {
            None => Received::fault(FaultType::InvalidPacket, true, None, FAULT_UNASSOCIATED_SIZE),
            Some(packet) => {
                if packet_type == PACKET_TYPE_HANDSHAKE_HELLO {
                    self.receive_hello(app, address, n, packet, current_time)
                } else {
                    self.receive_challenge(packet)
                }
            },
        }
    }

    /// Receives a fragment that is addressed to no session.
    fn receive_unassociated(
        &mut self,
        app: &mut App,
        address: &[u8],
        fragment: Vec<u8>,
        current_time: i64,
    ) -> (out: Received)
        requires
            old(self)@.wf(),
            old(self)@.has_room(),
            fragment@.len() >= HEADER_SIZE,
            old(app).settings_spec().valid(),
            old(app).settings_spec().reckons_from(current_time),
        ensures
            old(self)@.unassociated_received(
                *old(app),
                address@,
                fragment@,
                current_time,
                final(self)@,
                *final(app),
                out,
            ),
            final(app).settings_spec() == old(app).settings_spec(),
            final(self)@.wf(),
            out.reply matches Some(reply) ==> reply@.packet.measured(),
    {
        let ghost before = self@;
        let ghost f = fragment@;
        let (no, count, n) = match parse_fragment_header(fragment.as_slice(), None) {
            Ok(parsed) => parsed,
            Err(e) => return Received::error(e),
        };
        let (packet_type, _) = from_nonce(&n);
        if packet_type != PACKET_TYPE_HANDSHAKE_HELLO && packet_type != PACKET_TYPE_CHALLENGE {
            return Received::fault(FaultType::InvalidPacket, true, None, FAULT_UNASSOCIATED_TYPE);
        }
        if count > 1 {
            let settings = app.settings();
            let expiry: i64 = current_time + settings.fragment_assembly_timeout;
            let assembled = self.0.unassociated_defrag_cache.assemble(
                &n,
                address,
                fragment,
                no,
                count,
                expiry,
            );
            proof {
                assert(self@ == before.with_fragments(self@.fragments));
                lemma_fragments_wf(before, self@.fragments);
                lemma_has_room(before, self@);
            }
            match assembled {
                None => Received::unassociated(None),
                Some(fragments) => self.receive_unassociated_fragments(
                    app,
                    address,
                    &n,
                    fragments,
                    current_time,
                ),
            }
        } else {
            let mut fragments: Vec<Vec<u8>> = Vec::new();
            fragments.push(fragment);
            assert(contents(fragments@) =~= seq![f]);
            self.receive_unassociated_fragments(app, address, &n, fragments, current_time)
        }
    }

    /// Receives a fragment to the id `kid`, which is zero where it is addressed to no session.
    pub fn receive_fragment(
        &mut self,
        app: &mut App,
        kid: u32,
        remote_address: &[u8],
        fragment: Vec<u8>,
        current_time: i64,
    ) -> (out: Received)
        requires
            old(self)@.wf(),
            old(self)@.has_room(),
            fragment@.len() >= MIN_PACKET_SIZE,
            old(app).settings_spec().valid(),
            old(app).settings_spec().reckons_from(current_time),
        ensures
            old(self)@.fragment_received(
                *old(app),
                kid,
                remote_address@,
                fragment@,
                current_time,
                final(self)@,
                *final(app),
                out,
            ),
            final(app).settings_spec() == old(app).settings_spec(),
            final(self)@.wf(),
            out.reply matches Some(reply) ==> reply@.packet.measured(),
    {
        if kid == 0 {
            return self.receive_unassociated(app, remote_address, fragment, current_time);
        }
        if let Some(i) = self.find_session(kid) {
            return self.receive_session(app, i, kid, fragment, current_time);
        }
        // Check for and handle a handshake completion.
        match self.0.unassociated_handshake_states.find(kid) {
            Some(i) => self.receive_handshake(app, i, kid, fragment, current_time),
            // This can occur naturally because either Bob's incoming_sessions cache got
            // full so Alice's incoming session was dropped, or the session this packet
            // was for was dropped by the application.
            None => Received::fault(FaultType::UnknownLocalKeyId, false, None, FAULT_KEY_ID),
        }
    }

    /// Receive, authenticate, decrypt, and process a physical wire packet.
    ///
    /// The `incoming_session` callback is called when a hello is received. This is before anything
    /// is known about the caller.
    ///
    /// The `check_accept_session` callback is called at the end of negotiation for an incoming
    /// session with what the caller shows of itself.
    ///
    /// * `app` - Interface to application using ZSSP
    /// * `remote_address` - The bytes of the remote address
    /// * `incoming_fragment` - The incoming wire packet (the context takes ownership)
    /// * `current_time` - The time in milliseconds
    ///
    /// What comes back says what the packet was, and holds the reply to send, if there is one, and
    /// the decrypted and authenticated data.
    pub fn receive(
        &mut self,
        app: &mut App,
        remote_address: &[u8],
        incoming_fragment: Vec<u8>,
        current_time: i64,
    ) -> (out: Received)
        requires
            old(self)@.wf(),
            old(self)@.has_room(),
            old(app).settings_spec().valid(),
            old(app).settings_spec().reckons_from(current_time),
        ensures
            old(self)@.packet_received(
                *old(app),
                remote_address@,
                incoming_fragment@,
                current_time,
                final(self)@,
                *final(app),
                out,
            ),
            final(app).settings_spec() == old(app).settings_spec(),
            final(self)@.wf(),
            out.reply matches Some(reply) ==> reply@.packet.measured(),
    {
        if incoming_fragment.len() < MIN_PACKET_SIZE {
            return Received::fault(FaultType::InvalidPacket, false, None, FAULT_PACKET_SIZE);
        }
        let kid_bytes = array_at::<KID_SIZE>(incoming_fragment.as_slice(), 0);
        let kid_recv = u32_from_ne_bytes(kid_bytes);
        assert(native_u32(kid_recv, incoming_fragment@.subrange(0, KID_SIZE as int)));
        self.receive_fragment(app, kid_recv, remote_address, incoming_fragment, current_time)
    }
}

} // verus!
