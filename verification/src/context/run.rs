//! What holds of a context, and of each of its sessions, over any sequence of calls.

use vstd::prelude::*;

use crate::application::ApplicationLayer;
use crate::context::receive::Received;
use crate::context::send::send_refused;
use crate::context::ContextView;
use crate::expiry::law_alive_entries;
use crate::handshake_cache::{handshake_from, lemma_handshake_from, Handshake};
use crate::outgoing::{Outgoing, OutgoingView};
use crate::proto::{native_u32, KID_SIZE, MIN_PACKET_SIZE};
use crate::result::{
    FaultType, OpenError, ReceiveError, ReceiveOk, SendError, SessionEvent, SessionHandle,
    FAULT_PACKET_SIZE,
};

verus! {

/// A call of a context, and what came of it.
pub enum ContextStep<App: ApplicationLayer> {
    Open {
        app: App,
        app_after: App,
        s_remote: App::PublicKey,
        session_data: App::Data,
        identity: Seq<u8>,
        current_time: i64,
        opened: Result<(SessionHandle, Outgoing), OpenError>,
    },
    /// A physical packet, which is addressed to the id `kid`.
    Receive {
        app: App,
        app_after: App,
        kid: u32,
        address: Seq<u8>,
        fragment: Seq<u8>,
        current_time: i64,
        out: Received,
    },
    Send {
        app: App,
        session: SessionHandle,
        mtu: usize,
        data: Seq<u8>,
        sent: Result<Vec<Vec<u8>>, SendError>,
    },
    Service { app: App, current_time: i64, packets: Seq<OutgoingView> },
    Close { session: SessionHandle },
}

impl<App: ApplicationLayer> ContextStep<App> {
    /// What happened to a session, where the call was the receipt of a packet for it.
    pub open spec fn event(self, session: SessionHandle) -> Option<SessionEvent> {
        match self {
            ContextStep::Receive { out, .. } => match out.result {
                Ok(ReceiveOk::Associated(handle, event)) => if handle == session {
                    Some(event)
                } else {
                    None
                },
                _ => None,
            },
            _ => None,
        }
    }

    /// The call made a session out of a completion to the id `kid`.
    pub open spec fn creates(self, kid: u32, session: SessionHandle) -> bool {
        &&& self matches ContextStep::Receive { kid: to, .. }
        &&& to == kid
        &&& (self.event(session) == Some(SessionEvent::NewSession) || self.event(session) == Some(
            SessionEvent::NewDowngradedSession,
        ))
    }
}

impl<App: ApplicationLayer> ContextView<App> {
    /// `after` may be the context after the call `step`.
    #[verifier::opaque]
    pub open spec fn stepped(self, step: ContextStep<App>, after: Self) -> bool {
        match step {
            ContextStep::Open {
                app,
                app_after,
                s_remote,
                session_data,
                identity,
                current_time,
                opened,
            } => self.opened(
                app,
                s_remote,
                session_data,
                identity,
                current_time,
                after,
                app_after,
                opened,
            ),
            ContextStep::Receive {
                app,
                app_after,
                kid,
                address,
                fragment,
                current_time,
                out,
            } => {
                if fragment.len() < MIN_PACKET_SIZE {
                    after == self && app_after == app && out.fails(
                        FaultType::InvalidPacket,
                        false,
                        None,
                        FAULT_PACKET_SIZE,
                    )
                } else {
                    &&& native_u32(kid, fragment.subrange(0, KID_SIZE as int))
                    &&& self.fragment_received(
                        app,
                        kid,
                        address,
                        fragment,
                        current_time,
                        after,
                        app_after,
                        out,
                    )
                }
            },
            ContextStep::Send { app, session, mtu, data, sent } => self.sent(
                app.settings_spec(),
                session,
                mtu,
                data,
                after,
                sent,
            ),
            ContextStep::Service { app, current_time, packets } => self.serviced(
                app,
                current_time,
                after,
                packets,
            ),
            ContextStep::Close { session } => after == self.closed(session),
        }
    }

    /// The session at place `i` is still in its handshake, as its initiator.
    pub open spec fn waits(self, i: int) -> bool {
        self.session(i) matches Some(s) && (s.zeta.beta is A1 || s.zeta.beta is A3)
    }

    /// There was a session at place `i`, and it has expired.
    pub open spec fn ended(self, i: int) -> bool {
        0 <= i < self.sessions.len() && (self.session(i) matches Some(s) ==> s.zeta.beta is Null)
    }

    /// A handshake under the id `kid` is kept.
    pub open spec fn holds_handshake(self, kid: u32) -> bool {
        handshake_from(self.handshakes, kid, 0) is Some
    }
}

/// `states` are states of a context, each of which comes from the one before it by a call.
pub open spec fn is_context_run<App: ApplicationLayer>(
    states: Seq<ContextView<App>>,
    steps: Seq<ContextStep<App>>,
) -> bool {
    &&& states.len() == steps.len() + 1
    &&& forall|k: int|
        0 <= k < states.len() ==> (#[trigger] states[k]).wf() && states[k].sessions.len()
            <= usize::MAX
    &&& forall|k: int|
        0 <= k < steps.len() ==> (#[trigger] states[k]).stepped(steps[k], states[k + 1])
}

/// Whatever `Context::receive` returns is a step.
pub proof fn law_receive_is_step<App: ApplicationLayer>(
    context: ContextView<App>,
    app: App,
    address: Seq<u8>,
    fragment: Seq<u8>,
    current_time: i64,
    after: ContextView<App>,
    app_after: App,
    out: Received,
)
    requires
        context.packet_received(app, address, fragment, current_time, after, app_after, out),
    ensures
        exists|kid: u32|
            context.stepped(
                #[trigger] receive_step(app, app_after, kid, address, fragment, current_time, out),
                after,
            ),
{
    reveal(ContextView::stepped);
    let kid = if fragment.len() < MIN_PACKET_SIZE {
        0u32
    } else {
        choose|kid: u32|
            {
                &&& #[trigger] native_u32(kid, fragment.subrange(0, KID_SIZE as int))
                &&& context.fragment_received(
                    app,
                    kid,
                    address,
                    fragment,
                    current_time,
                    after,
                    app_after,
                    out,
                )
            }
    };
    assert(context.stepped(
        receive_step(app, app_after, kid, address, fragment, current_time, out),
        after,
    ));
}

/// The receipt of a packet to the id `kid`.
pub open spec fn receive_step<App: ApplicationLayer>(
    app: App,
    app_after: App,
    kid: u32,
    address: Seq<u8>,
    fragment: Seq<u8>,
    current_time: i64,
    out: Received,
) -> ContextStep<App> {
    ContextStep::Receive { app, app_after, kid, address, fragment, current_time, out }
}

/// A fault that made a session expire names the session.
pub proof fn law_expiring_fault_names_session<App: ApplicationLayer>(
    context: ContextView<App>,
    app: App,
    address: Seq<u8>,
    fragment: Seq<u8>,
    current_time: i64,
    after: ContextView<App>,
    app_after: App,
    out: Received,
)
    requires
        context.packet_received(app, address, fragment, current_time, after, app_after, out),
    ensures
        out.result matches Err(ReceiveError::ByzantineFault(f)) ==> (f.caused_expiration
            ==> f.session is Some),
{
}

/// Data comes out of a packet only where it is authentic data of a session.
pub proof fn law_data_only_with_event<App: ApplicationLayer>(
    context: ContextView<App>,
    app: App,
    address: Seq<u8>,
    fragment: Seq<u8>,
    current_time: i64,
    after: ContextView<App>,
    app_after: App,
    out: Received,
)
    requires
        context.packet_received(app, address, fragment, current_time, after, app_after, out),
        out.data@.len() > 0,
    ensures
        out.result matches Ok(ReceiveOk::Associated(session, event)) && event
            == SessionEvent::Data && context.session(session.index as int) is Some,
{
}

/// What a packet for a session does to the sessions.
proof fn lemma_session_received<App: ApplicationLayer>(
    before: ContextView<App>,
    app: App,
    i: usize,
    kid: u32,
    fragment: Seq<u8>,
    current_time: i64,
    after: ContextView<App>,
    app_after: App,
    out: Received,
    k: int,
)
    requires
        before.wf(),
        before.session(i as int) is Some,
        before.session_received(app, i, kid, fragment, current_time, after, app_after, out),
        0 <= k < before.sessions.len(),
    ensures
        after.sessions.len() == before.sessions.len(),
        after.handshakes == before.handshakes,
        k != i ==> after.sessions[k] == before.sessions[k],
        after.waits(k) ==> before.waits(k),
        before.ended(k) ==> after.ended(k),
        out.result matches Ok(ReceiveOk::Associated(h, e)) ==> h.index == i && (e
            == SessionEvent::Established || e == SessionEvent::Rejected ==> before.waits(i as int)
            && !after.waits(i as int)) && e != SessionEvent::NewSession && e
            != SessionEvent::NewDowngradedSession,
        before.ended(i as int) ==> !(out.result matches Ok(ReceiveOk::Associated(h, e))),
        before.waits(k) && !after.waits(k) && !after.ended(k) ==> k == i && out.result == Ok::<
            ReceiveOk,
            ReceiveError,
        >(ReceiveOk::Associated(SessionHandle { index: i }, SessionEvent::Established)),
{
    let was = before.sessions[i as int]->0;
    assert(was.wf());
}

/// What a packet that is addressed to no session does to the sessions and the handshakes.
proof fn lemma_unassociated_received<App: ApplicationLayer>(
    before: ContextView<App>,
    app: App,
    address: Seq<u8>,
    fragment: Seq<u8>,
    current_time: i64,
    after: ContextView<App>,
    app_after: App,
    out: Received,
    k: int,
    kid: u32,
)
    requires
        before.unassociated_received(app, address, fragment, current_time, after, app_after, out),
    ensures
        after.sessions.len() == before.sessions.len(),
        after.waits(k) <==> before.waits(k),
        after.ended(k) <==> before.ended(k),
        before.session(k) matches Some(s) ==> (after.session(k) matches Some(t) && t.zeta
            == s.zeta),
        !(out.result matches Ok(ReceiveOk::Associated(h, e))),
        after.holds_handshake(kid) && !before.holds_handshake(kid) ==> !before.in_use(kid),
{
    lemma_handshake_from(before.handshakes, kid, 0);
    lemma_handshake_from(after.handshakes, kid, 0);
    if after.holds_handshake(kid) && !before.holds_handshake(kid) {
        let j = handshake_from(after.handshakes, kid, 0)->0;
        if j < after.handshakes.len() - 1 {
            if after.handshakes.len() == before.handshakes.len() {
                assert(before.handshakes[j].b2.kid_recv != kid);
                assert(before.handshakes[j + 1].b2.kid_recv != kid);
            } else {
                assert(before.handshakes[j].b2.kid_recv != kid);
            }
        }
    }
}

/// What a packet for a handshake does to the sessions and the handshakes.
proof fn lemma_handshake_received<App: ApplicationLayer>(
    before: ContextView<App>,
    app: App,
    i: int,
    to: u32,
    fragment: Seq<u8>,
    current_time: i64,
    after: ContextView<App>,
    app_after: App,
    out: Received,
    k: int,
    kid: u32,
)
    requires
        before.wf(),
        before.sessions.len() <= usize::MAX,
        handshake_from(before.handshakes, to, 0) == Some(i),
        before.handshake_received(app, i, to, fragment, current_time, after, app_after, out),
    ensures
        after.sessions.len() >= before.sessions.len(),
        0 <= k < before.sessions.len() ==> after.sessions[k] == before.sessions[k],
        after.holds_handshake(kid) ==> before.holds_handshake(kid),
        out.result matches Ok(ReceiveOk::Associated(h, e)) ==> {
            &&& h.index == before.sessions.len()
            &&& after.sessions.len() == before.sessions.len() + 1
            &&& !after.waits(h.index as int)
            &&& e == SessionEvent::NewSession || e == SessionEvent::NewDowngradedSession
            &&& !after.holds_handshake(to)
        },
{
    lemma_handshake_from(before.handshakes, kid, 0);
    lemma_handshake_from(after.handshakes, kid, 0);
    lemma_handshake_from(before.handshakes, to, 0);
    lemma_handshake_from(after.handshakes, to, 0);
    if after.holds_handshake(kid) && !before.holds_handshake(kid) {
        let j = handshake_from(after.handshakes, kid, 0)->0;
        assert(before.handshakes[j].b2.kid_recv != kid);
        if after.handshakes.len() < before.handshakes.len() {
            assert(before.handshakes[j + 1].b2.kid_recv != kid);
        }
    }
    if after.holds_handshake(to) && after.handshakes.len() < before.handshakes.len() {
        let j = handshake_from(after.handshakes, to, 0)->0;
        let from = if j < i {
            j
        } else {
            j + 1
        };
        assert(before.handshakes[from].b2.kid_recv == to);
        assert(before.handshakes[i].b2.kid_recv == to);
        assert(from != i);
    }
}

/// What looking at sessions that are due does to the sessions and the handshakes.
proof fn lemma_service_run<App: ApplicationLayer>(
    before: ContextView<App>,
    app: App,
    current_time: i64,
    states: Seq<ContextView<App>>,
    steps: Seq<Option<OutgoingView>>,
    m: int,
    k: int,
)
    requires
        before.service_run(app, current_time, states, steps),
        0 <= m <= steps.len(),
        0 <= k < before.sessions.len(),
    ensures
        states[m].sessions.len() == before.sessions.len(),
        states[m].handshakes == before.handshakes,
        states[m].waits(k) ==> before.waits(k),
        before.ended(k) ==> states[m].ended(k),
        before.waits(k) ==> states[m].waits(k) || states[m].ended(k),
    decreases m,
{
    if m > 0 {
        lemma_service_run(before, app, current_time, states, steps, m - 1, k);
        assert(states[m - 1].service_stepped(app, current_time, states[m], steps[m - 1]));
    }
}

/// What a call does to the sessions and the handshakes.
proof fn lemma_step<App: ApplicationLayer>(
    before: ContextView<App>,
    step: ContextStep<App>,
    after: ContextView<App>,
    k: int,
    kid: u32,
)
    requires
        before.wf(),
        before.stepped(step, after),
        0 <= k < before.sessions.len() <= usize::MAX,
    ensures
        after.sessions.len() >= before.sessions.len(),
        after.waits(k) ==> before.waits(k),
        before.ended(k) ==> after.ended(k),
        ({
            let event = step.event(SessionHandle { index: k as usize });
            &&& event == Some(SessionEvent::Established) || event == Some(SessionEvent::Rejected)
                ==> before.waits(k) && !after.waits(k)
            &&& before.waits(k) ==> after.waits(k) || after.ended(k) || event == Some(
                SessionEvent::Established,
            )
        }),
        after.holds_handshake(kid) && !before.holds_handshake(kid) ==> !before.in_use(kid)
            && (step matches ContextStep::Receive { kid: to, .. } && to == 0),
{
    reveal(ContextView::stepped);
    match step {
        ContextStep::Open { .. } => {},
        ContextStep::Receive {
            app,
            app_after,
            kid: to,
            address,
            fragment,
            current_time,
            out,
        } => {
            if fragment.len() >= MIN_PACKET_SIZE {
                if to == 0 {
                    lemma_unassociated_received(
                        before,
                        app,
                        address,
                        fragment,
                        current_time,
                        after,
                        app_after,
                        out,
                        k,
                        kid,
                    );
                } else if let Some(i) = before.session_of(to) {
                    lemma_session_received(
                        before,
                        app,
                        i,
                        to,
                        fragment,
                        current_time,
                        after,
                        app_after,
                        out,
                        k,
                    );
                } else if let Some(i) = handshake_from(before.handshakes, to, 0) {
                    lemma_handshake_received(
                        before,
                        app,
                        i,
                        to,
                        fragment,
                        current_time,
                        after,
                        app_after,
                        out,
                        k,
                        kid,
                    );
                }
            }
        },
        ContextStep::Send { .. } => {},
        ContextStep::Service { app, current_time, packets } => {
            let (states, steps) = choose|
                states: Seq<ContextView<App>>,
                steps: Seq<Option<OutgoingView>>,
            |
                {
                    &&& #[trigger] before.service_run(app, current_time, states, steps)
                    &&& after == states.last().cleaned(current_time)
                };
            lemma_service_run(
                before,
                app,
                current_time,
                states,
                steps,
                steps.len() as int,
                k,
            );
            lemma_handshake_from(after.handshakes, kid, 0);
            lemma_handshake_from(before.handshakes, kid, 0);
            if after.holds_handshake(kid) {
                let j = handshake_from(after.handshakes, kid, 0)->0;
                law_alive_entries::<Handshake<App>>(before.handshakes, current_time, j);
                let from = choose|from: int|
                    0 <= from < before.handshakes.len() && before.handshakes[from]
                        == after.handshakes[j];
                assert(before.handshakes[from].b2.kid_recv == kid);
            }
        },
        ContextStep::Close { .. } => {},
    }
}

/// What happened to a session happened to one that there was, or to one that was made of a
/// handshake, which is then no longer kept.
proof fn lemma_event<App: ApplicationLayer>(
    before: ContextView<App>,
    step: ContextStep<App>,
    after: ContextView<App>,
    session: SessionHandle,
)
    requires
        before.wf(),
        before.sessions.len() <= usize::MAX,
        before.stepped(step, after),
        step.event(session) is Some,
    ensures
        step matches ContextStep::Receive { kid, .. } && if step.creates(kid, session) {
            &&& session.index == before.sessions.len()
            &&& after.sessions.len() == before.sessions.len() + 1
            &&& !after.waits(session.index as int)
            &&& before.holds_handshake(kid)
            &&& !after.holds_handshake(kid)
        } else {
            session.index < before.sessions.len() && !before.ended(session.index as int)
        },
{
    reveal(ContextView::stepped);
    if let ContextStep::Receive {
        app,
        app_after,
        kid,
        address,
        fragment,
        current_time,
        out,
    } = step {
        if kid == 0 {
            lemma_unassociated_received(
                before,
                app,
                address,
                fragment,
                current_time,
                after,
                app_after,
                out,
                0,
                0,
            );
        } else if let Some(i) = before.session_of(kid) {
            lemma_session_received(
                before,
                app,
                i,
                kid,
                fragment,
                current_time,
                after,
                app_after,
                out,
                i as int,
            );
        } else if let Some(i) = handshake_from(before.handshakes, kid, 0) {
            lemma_handshake_received(
                before,
                app,
                i,
                kid,
                fragment,
                current_time,
                after,
                app_after,
                out,
                0,
                kid,
            );
        }
    }
}

/// A context never gives a place to another session. A session never goes back into its handshake,
/// and one that has expired stays so, whatever the calls.
pub proof fn law_stages_pass<App: ApplicationLayer>(
    states: Seq<ContextView<App>>,
    steps: Seq<ContextStep<App>>,
    i: int,
    j: int,
    k: int,
)
    requires
        is_context_run(states, steps),
        0 <= i <= j <= steps.len(),
        0 <= k < states[i].sessions.len(),
    ensures
        states[i].sessions.len() <= states[j].sessions.len(),
        states[j].waits(k) ==> states[i].waits(k),
        states[i].ended(k) ==> states[j].ended(k),
    decreases j - i,
{
    if i < j {
        law_stages_pass(states, steps, i, j - 1, k);
        assert(states[j - 1].stepped(steps[j - 1], states[j]));
        assert(states[j - 1].wf());
        lemma_step(states[j - 1], steps[j - 1], states[j], k, 0);
    }
}

/// A session is established at most once, and it is not refused once it was established, whatever
/// the calls in between.
pub proof fn law_established_once<App: ApplicationLayer>(
    states: Seq<ContextView<App>>,
    steps: Seq<ContextStep<App>>,
    i: int,
    j: int,
    session: SessionHandle,
)
    requires
        is_context_run(states, steps),
        0 <= i < j < steps.len(),
        steps[i].event(session) == Some(SessionEvent::Established),
    ensures
        steps[j].event(session) != Some(SessionEvent::Established),
        steps[j].event(session) != Some(SessionEvent::Rejected),
{
    let k = session.index as int;
    assert(states[i].stepped(steps[i], states[i + 1]) && states[i].wf());
    lemma_event(states[i], steps[i], states[i + 1], session);
    lemma_step(states[i], steps[i], states[i + 1], k, 0);
    law_stages_pass(states, steps, i + 1, j, k);
    assert(states[j].stepped(steps[j], states[j + 1]) && states[j].wf());
    lemma_step(states[j], steps[j], states[j + 1], k, 0);
}

/// A session that was made of a completion is never said to be established, nor refused: that
/// happens to sessions that were opened only.
pub proof fn law_only_opened_established<App: ApplicationLayer>(
    states: Seq<ContextView<App>>,
    steps: Seq<ContextStep<App>>,
    i: int,
    j: int,
    kid: u32,
    session: SessionHandle,
)
    requires
        is_context_run(states, steps),
        0 <= i < j < steps.len(),
        steps[i].creates(kid, session),
    ensures
        steps[j].event(session) != Some(SessionEvent::Established),
        steps[j].event(session) != Some(SessionEvent::Rejected),
{
    let k = session.index as int;
    assert(states[i].stepped(steps[i], states[i + 1]) && states[i].wf());
    lemma_event(states[i], steps[i], states[i + 1], session);
    law_stages_pass(states, steps, i + 1, j, k);
    assert(states[j].stepped(steps[j], states[j + 1]) && states[j].wf());
    lemma_step(states[j], steps[j], states[j + 1], k, 0);
}

/// Where a handshake comes to be kept, there is a call that began it.
proof fn lemma_handshake_begins<App: ApplicationLayer>(
    states: Seq<ContextView<App>>,
    steps: Seq<ContextStep<App>>,
    i: int,
    j: int,
    kid: u32,
) -> (m: int)
    requires
        is_context_run(states, steps),
        0 <= i <= j <= steps.len(),
        states[i].sessions.len() > 0,
        !states[i].holds_handshake(kid),
        states[j].holds_handshake(kid),
    ensures
        i <= m < j,
        steps[m] matches ContextStep::Receive { kid: to, .. } && to == 0,
        !states[m].in_use(kid),
        states[m + 1].holds_handshake(kid),
    decreases j - i,
{
    if states[j - 1].holds_handshake(kid) {
        lemma_handshake_begins(states, steps, i, j - 1, kid)
    } else {
        law_stages_pass(states, steps, i, j - 1, 0);
        assert(states[j - 1].stepped(steps[j - 1], states[j]) && states[j - 1].wf());
        lemma_step(states[j - 1], steps[j - 1], states[j], 0, kid);
        j - 1
    }
}

/// A handshake is processed once: of the completions that come to its id, however often they come
/// and whatever the calls in between, at most one makes a session. Another session can be made
/// under the id only after a new handshake has begun under it, at a time when no session and no
/// handshake had it.
pub proof fn law_completion_once<App: ApplicationLayer>(
    states: Seq<ContextView<App>>,
    steps: Seq<ContextStep<App>>,
    i: int,
    j: int,
    kid: u32,
    session1: SessionHandle,
    session2: SessionHandle,
)
    requires
        is_context_run(states, steps),
        0 <= i < j < steps.len(),
        steps[i].creates(kid, session1),
        steps[j].creates(kid, session2),
    ensures
        exists|m: int|
            {
                &&& i < m < j
                &&& (#[trigger] steps[m]) matches ContextStep::Receive { kid: to, .. }
                &&& to == 0
                &&& !states[m].in_use(kid)
                &&& states[m + 1].holds_handshake(kid)
            },
{
    assert(states[i].stepped(steps[i], states[i + 1]) && states[i].wf());
    lemma_event(states[i], steps[i], states[i + 1], session1);
    assert(states[j].stepped(steps[j], states[j + 1]) && states[j].wf());
    lemma_event(states[j], steps[j], states[j + 1], session2);
    let m = lemma_handshake_begins(states, steps, i + 1, j, kid);
    assert(steps[m] matches ContextStep::Receive { kid: to, .. } && to == 0);
}

/// A session that has expired, or that was ended, refuses to send for good, whatever the calls in
/// between.
pub proof fn law_expired_refuses<App: ApplicationLayer>(
    states: Seq<ContextView<App>>,
    steps: Seq<ContextStep<App>>,
    i: int,
    j: int,
    session: SessionHandle,
)
    requires
        is_context_run(states, steps),
        0 <= i <= j < steps.len(),
        states[i].ended(session.index as int),
        steps[j] matches ContextStep::Send { session: to, mtu, data, .. } && to == session
            && send_refused(mtu, data.len()) is None,
    ensures
        steps[j] matches ContextStep::Send { sent, .. } && sent == Err::<Vec<Vec<u8>>, SendError>(
            SendError::SessionExpired,
        ),
{
    reveal(ContextView::stepped);
    law_stages_pass(states, steps, i, j, session.index as int);
    assert(states[j].stepped(steps[j], states[j + 1]));
}

/// Nothing happens any more to a session that has expired, or that was ended, whatever the calls in
/// between: no packet is taken for it, and so no data comes out.
pub proof fn law_expired_receives_nothing<App: ApplicationLayer>(
    states: Seq<ContextView<App>>,
    steps: Seq<ContextStep<App>>,
    i: int,
    j: int,
    session: SessionHandle,
)
    requires
        is_context_run(states, steps),
        0 <= i <= j < steps.len(),
        states[i].ended(session.index as int),
    ensures
        steps[j].event(session) is None,
{
    law_stages_pass(states, steps, i, j, session.index as int);
    assert(states[j].stepped(steps[j], states[j + 1]) && states[j].wf());
    if steps[j].event(session) is Some {
        lemma_event(states[j], steps[j], states[j + 1], session);
    }
}

/// A session whose key is used up has expired.
pub proof fn law_used_up_has_ended<App: ApplicationLayer>(
    states: Seq<ContextView<App>>,
    steps: Seq<ContextStep<App>>,
    i: int,
    session: SessionHandle,
)
    requires
        is_context_run(states, steps),
        0 <= i < steps.len(),
        steps[i] matches ContextStep::Send { app, session: to, mtu, data, .. } && to == session
            && send_refused(mtu, data.len()) is None && (states[i].session(session.index as int)
            matches Some(s) && s.zeta.can_send() && s.zeta.send_counter
            >= s.zeta.key_creation_counter + app.settings_spec().expire_after_uses),
    ensures
        states[i + 1].ended(session.index as int),
        states[i + 1].session(session.index as int) is None,
{
    reveal(ContextView::stepped);
    assert(states[i].stepped(steps[i], states[i + 1]));
}

/// Ending a session makes it one that has expired.
pub proof fn law_closed_has_ended<App: ApplicationLayer>(
    context: ContextView<App>,
    session: SessionHandle,
)
    requires
        session.index < context.sessions.len(),
    ensures
        context.closed(session).ended(session.index as int),
{
}

/// A session that is still in its handshake, or has expired, is not established by anything but
/// the packet of which it is said.
proof fn lemma_not_established<App: ApplicationLayer>(
    states: Seq<ContextView<App>>,
    steps: Seq<ContextStep<App>>,
    i: int,
    j: int,
    session: SessionHandle,
)
    requires
        is_context_run(states, steps),
        0 <= i <= j <= steps.len(),
        states[i].waits(session.index as int),
        forall|m: int|
            i <= m < j ==> (#[trigger] steps[m]).event(session) != Some(SessionEvent::Established),
    ensures
        states[j].waits(session.index as int) || states[j].ended(session.index as int),
    decreases j - i,
{
    if i < j {
        lemma_not_established(states, steps, i, j - 1, session);
        law_stages_pass(states, steps, i, j - 1, session.index as int);
        assert(states[j - 1].stepped(steps[j - 1], states[j]) && states[j - 1].wf());
        assert(steps[j - 1].event(session) != Some(SessionEvent::Established));
        lemma_step(states[j - 1], steps[j - 1], states[j], session.index as int, 0);
    }
}

/// A session that was opened sends nothing before it is established: the attempt is refused, for
/// the reason that the session is not established, or that it has expired meanwhile.
pub proof fn law_no_data_before_established<App: ApplicationLayer>(
    states: Seq<ContextView<App>>,
    steps: Seq<ContextStep<App>>,
    i: int,
    j: int,
    session: SessionHandle,
)
    requires
        is_context_run(states, steps),
        0 <= i < j < steps.len(),
        steps[i] matches ContextStep::Open { opened, .. } && opened matches Ok((handle, hello))
            && handle == session,
        forall|m: int|
            i < m < j ==> (#[trigger] steps[m]).event(session) != Some(SessionEvent::Established),
        steps[j] matches ContextStep::Send { session: to, mtu, data, .. } && to == session
            && send_refused(mtu, data.len()) is None,
    ensures
        steps[j] matches ContextStep::Send { sent, .. } && (sent == Err::<
            Vec<Vec<u8>>,
            SendError,
        >(SendError::SessionNotEstablished) || sent == Err::<Vec<Vec<u8>>, SendError>(
            SendError::SessionExpired,
        )),
{
    reveal(ContextView::stepped);
    assert(states[i].stepped(steps[i], states[i + 1]) && states[i].wf());
    assert(states[i + 1].waits(session.index as int));
    lemma_not_established(states, steps, i + 1, j, session);
    assert(states[j].stepped(steps[j], states[j + 1]));
}

impl<App: ApplicationLayer> ContextView<App> {
    /// The call `step` brings nothing for a session: no packet for it, no look at its timers, and
    /// not its end.
    pub open spec fn leaves_alone(self, step: ContextStep<App>, session: SessionHandle) -> bool {
        match step {
            ContextStep::Receive { kid, .. } => kid == 0 || self.session_of(kid) != Some(
                session.index,
            ),
            ContextStep::Service { .. } => false,
            ContextStep::Close { session: ended } => ended != session,
            _ => true,
        }
    }
}

/// A session that waits for the response to its hello goes on to wait while nothing comes for it.
proof fn lemma_left_alone<App: ApplicationLayer>(
    states: Seq<ContextView<App>>,
    steps: Seq<ContextStep<App>>,
    i: int,
    j: int,
    session: SessionHandle,
)
    requires
        is_context_run(states, steps),
        0 <= i <= j <= steps.len(),
        states[i].session(session.index as int) matches Some(s) && s.zeta.beta is A1,
        forall|m: int|
            i <= m < j ==> (#[trigger] states[m]).leaves_alone(steps[m], session),
    ensures
        states[j].session(session.index as int) matches Some(s) && s.zeta == (
        states[i].sessions[session.index as int]->0).zeta,
    decreases j - i,
{
    reveal(ContextView::stepped);
    if i < j {
        lemma_left_alone(states, steps, i, j - 1, session);
        let before = states[j - 1];
        let after = states[j];
        let k = session.index as int;
        assert(before.stepped(steps[j - 1], after) && before.wf());
        assert(before.leaves_alone(steps[j - 1], session));
        match steps[j - 1] {
            ContextStep::Receive {
                app,
                app_after,
                kid,
                address,
                fragment,
                current_time,
                out,
            } => {
                if fragment.len() >= MIN_PACKET_SIZE {
                    if kid == 0 {
                        lemma_unassociated_received(
                            before,
                            app,
                            address,
                            fragment,
                            current_time,
                            after,
                            app_after,
                            out,
                            k,
                            0,
                        );
                    } else if let Some(i) = before.session_of(kid) {
                        lemma_session_received(
                            before,
                            app,
                            i,
                            kid,
                            fragment,
                            current_time,
                            after,
                            app_after,
                            out,
                            k,
                        );
                    } else if let Some(i) = handshake_from(before.handshakes, kid, 0) {
                        lemma_handshake_received(
                            before,
                            app,
                            i,
                            kid,
                            fragment,
                            current_time,
                            after,
                            app_after,
                            out,
                            k,
                            0,
                        );
                    }
                }
            },
            _ => {},
        }
    }
}

/// While nothing has come for a session since it was opened, an attempt to send over it is refused
/// because it is not established.
pub proof fn law_opened_not_established<App: ApplicationLayer>(
    states: Seq<ContextView<App>>,
    steps: Seq<ContextStep<App>>,
    i: int,
    j: int,
    session: SessionHandle,
)
    requires
        is_context_run(states, steps),
        0 <= i < j < steps.len(),
        steps[i] matches ContextStep::Open { opened, .. } && opened matches Ok((handle, hello))
            && handle == session,
        forall|m: int|
            i < m < j ==> (#[trigger] states[m]).leaves_alone(steps[m], session),
        steps[j] matches ContextStep::Send { session: to, mtu, data, .. } && to == session
            && send_refused(mtu, data.len()) is None,
    ensures
        steps[j] matches ContextStep::Send { sent, .. } && sent == Err::<Vec<Vec<u8>>, SendError>(
            SendError::SessionNotEstablished,
        ),
        states[j + 1] == states[j],
{
    reveal(ContextView::stepped);
    assert(states[i].stepped(steps[i], states[i + 1]) && states[i].wf());
    lemma_left_alone(states, steps, i + 1, j, session);
    assert(states[j].stepped(steps[j], states[j + 1]));
}

} // verus!
