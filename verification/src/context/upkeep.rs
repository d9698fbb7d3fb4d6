//! What servicing a context does for each of its sessions, and for what it keeps.

use vstd::prelude::*;

use crate::application::ApplicationLayer;
use crate::context::run::{is_context_run, ContextStep};
use crate::context::service::{
    due, interval, lemma_first_interval_below, lemma_some_due, sent_packets, timer_packet,
};
use crate::context::ContextView;
use crate::expiry::{alive, Expires};
use crate::frag_cache::FragEntry;
use crate::handshake_cache::{handshake_from, Handshake};
use crate::outgoing::OutgoingView;
use crate::result::SessionHandle;
use crate::session::{packet_of, Processed, SessionView};
use crate::session_queue::{is_first, lemma_unscheduled};
use crate::timers::law_timers;
use crate::zeta::completion::packet_view;
use crate::zeta::Packet;

verus! {

/// An entry whose time has not come is not dropped.
pub proof fn law_alive_kept<E: Expires>(entries: Seq<E::V>, current_time: i64, i: int)
    requires
        0 <= i < entries.len(),
        E::expires(entries[i]) >= current_time,
    ensures
        alive::<E>(entries, current_time).contains(entries[i]),
    decreases entries.len(),
{
    let rest = alive::<E>(entries.drop_last(), current_time);
    let left = alive::<E>(entries, current_time);
    if i < entries.len() - 1 {
        assert(entries.drop_last()[i] == entries[i]);
        law_alive_kept::<E>(entries.drop_last(), current_time, i);
        let k = choose|k: int| 0 <= k < rest.len() && rest[k] == entries[i];
        assert(left[k] == entries[i]);
    } else {
        assert(left[rest.len() as int] == entries[i]);
    }
}

impl<App: ApplicationLayer> ContextView<App> {
    /// Every session is in the queue with the time of its next timer.
    pub open spec fn timely(self) -> bool {
        forall|k: int|
            0 <= k < self.queue.len() ==> (self.session((#[trigger] self.queue[k]).1 as int)
                matches Some(s) ==> self.queue[k].0 <= s.zeta.resend_timer && self.queue[k].0
                <= s.zeta.timeout_timer && (self.queue[k].0 == s.zeta.resend_timer
                || self.queue[k].0 == s.zeta.timeout_timer))
    }

    /// Every entry of the session at place `i` in the queue has this time, and there is one.
    spec fn waits_until(self, i: int, timer: i64) -> bool {
        &&& self.scheduled(i)
        &&& forall|k: int|
            0 <= k < self.queue.len() && (#[trigger] self.queue[k]).1 == i ==> self.queue[k].0
                == timer
    }

    /// No entry of the session at place `i` in the queue has a time before this one.
    spec fn waits_from(self, i: int, timer: i64) -> bool {
        forall|k: int|
            0 <= k < self.queue.len() && (#[trigger] self.queue[k]).1 == i ==> self.queue[k].0
                >= timer
    }
}

/// A context whose sessions have other states, but the same timers, is timely where it was.
proof fn lemma_timely_with_session<App: ApplicationLayer>(
    context: ContextView<App>,
    i: usize,
    session: SessionView<App>,
)
    requires
        context.timely(),
        context.session(i as int) matches Some(before) && before.zeta == session.zeta,
    ensures
        context.with_session(i, session).timely(),
{
    let after = context.with_session(i, session);
    assert forall|k: int| 0 <= k < after.queue.len() implies (after.session(
        (#[trigger] after.queue[k]).1 as int,
    ) matches Some(s) ==> after.queue[k].0 <= s.zeta.resend_timer && after.queue[k].0
        <= s.zeta.timeout_timer && (after.queue[k].0 == s.zeta.resend_timer || after.queue[k].0
        == s.zeta.timeout_timer)) by {
        assert(context.queue[k] == after.queue[k]);
    }
}

/// A session that has changed is put back into the queue.
proof fn lemma_timely_refreshed<App: ApplicationLayer>(
    context: ContextView<App>,
    i: usize,
    session: SessionView<App>,
)
    requires
        context.timely(),
        0 <= i < context.sessions.len(),
    ensures
        context.refreshed(i, session).timely(),
        context.retimed(i, session).timely(),
{
    let after = context.refreshed(i, session);
    assert forall|k: int| 0 <= k < after.queue.len() implies (after.session(
        (#[trigger] after.queue[k]).1 as int,
    ) matches Some(s) ==> after.queue[k].0 <= s.zeta.resend_timer && after.queue[k].0
        <= s.zeta.timeout_timer && (after.queue[k].0 == s.zeta.resend_timer || after.queue[k].0
        == s.zeta.timeout_timer)) by {
        assert(context.queue[k].1 == after.queue[k].1);
    }
    assert(context.retimed(i, session).queue == after.queue);
    assert(context.retimed(i, session).sessions == after.sessions);
}

/// A session that has ended is no longer in the queue.
proof fn lemma_timely_without_session<App: ApplicationLayer>(context: ContextView<App>, i: usize)
    requires
        context.timely(),
    ensures
        i < context.sessions.len() ==> context.without_session(i).timely(),
        (ContextView {
            queue: crate::session_queue::unscheduled(context.queue, i),
            ..context
        }).timely(),
{
    lemma_unscheduled(context.queue, i);
    let after = context.without_session(i);
    assert forall|k: int| 0 <= k < after.queue.len() implies (context.session(
        (#[trigger] after.queue[k]).1 as int,
    ) matches Some(s) ==> after.queue[k].0 <= s.zeta.resend_timer && after.queue[k].0
        <= s.zeta.timeout_timer && (after.queue[k].0 == s.zeta.resend_timer || after.queue[k].0
        == s.zeta.timeout_timer)) by {
        assert(context.queue.contains(after.queue[k]));
        let j = choose|j: int| 0 <= j < context.queue.len() && context.queue[j] == after.queue[k];
        assert(context.queue[j] == after.queue[k]);
    }
    assert forall|k: int| 0 <= k < after.queue.len() && i < context.sessions.len() implies (
    after.session((#[trigger] after.queue[k]).1 as int) == context.session(
        after.queue[k].1 as int,
    )) by {
        assert(crate::session_queue::unscheduled(context.queue, i)[k].1 != i);
    }
}

/// A new session is put into the queue.
proof fn lemma_timely_new_session<App: ApplicationLayer>(
    context: ContextView<App>,
    session: SessionView<App>,
)
    requires
        context.timely(),
        context.wf(),
        context.sessions.len() <= usize::MAX,
    ensures
        context.with_new_session(session).timely(),
{
    let after = context.with_new_session(session);
    assert forall|k: int| 0 <= k < after.queue.len() implies (after.session(
        (#[trigger] after.queue[k]).1 as int,
    ) matches Some(s) ==> after.queue[k].0 <= s.zeta.resend_timer && after.queue[k].0
        <= s.zeta.timeout_timer && (after.queue[k].0 == s.zeta.resend_timer || after.queue[k].0
        == s.zeta.timeout_timer)) by {
        if k < context.queue.len() {
            assert(context.queue[k] == after.queue[k]);
            assert(context.queue[k].1 < context.sessions.len());
        }
    }
}

/// Looking at a session leaves the context timely.
proof fn lemma_timely_looked_at<App: ApplicationLayer>(
    context: ContextView<App>,
    app: App,
    i: usize,
    current_time: i64,
    after: ContextView<App>,
    packet: Option<OutgoingView>,
)
    requires
        context.timely(),
        context.looked_at(app, i, current_time, after, packet),
    ensures
        after.timely(),
{
    lemma_timely_without_session(context, i);
    if context.session(i as int) is Some {
        let session = context.sessions[i as int]->0;
        let (kid_new, next, timer, p) = choose|
            kid_new: u32,
            next: SessionView<App>,
            timer: Option<i64>,
            p: Option<Packet>,
        |
            {
                &&& kid_new != 0
                &&& !context.in_use(kid_new)
                &&& #[trigger] session.timers_processed(
                    app,
                    context.s_secret,
                    kid_new,
                    current_time,
                    next,
                    timer,
                    p,
                )
                &&& after == if timer is Some {
                    context.refreshed(i, next)
                } else {
                    context.without_session(i)
                }
                &&& packet == timer_packet(i, next, packet_view(p))
            };
        lemma_timely_refreshed(context, i, next);
    }
}

/// Servicing leaves every state on the way timely.
proof fn lemma_timely_service_run<App: ApplicationLayer>(
    context: ContextView<App>,
    app: App,
    current_time: i64,
    states: Seq<ContextView<App>>,
    steps: Seq<Option<OutgoingView>>,
    n: int,
)
    requires
        context.timely(),
        context.service_run(app, current_time, states, steps),
        0 <= n <= steps.len(),
    ensures
        states[n].timely(),
    decreases n,
{
    if n > 0 {
        lemma_timely_service_run(context, app, current_time, states, steps, n - 1);
        assert(states[n - 1].service_stepped(
            app,
            current_time,
            states[n - 1 + 1],
            steps[n - 1],
        ));
        let q = choose|q: int|
            {
                &&& #[trigger] is_first(states[n - 1].queue, q)
                &&& states[n - 1].queue[q].0 < current_time
                &&& states[n - 1].looked_at(
                    app,
                    states[n - 1].queue[q].1,
                    current_time,
                    states[n],
                    steps[n - 1],
                )
            };
        lemma_timely_looked_at(
            states[n - 1],
            app,
            states[n - 1].queue[q].1,
            current_time,
            states[n],
            steps[n - 1],
        );
    }
}

/// Whatever comes for a session leaves the context timely.
proof fn lemma_timely_session_received<App: ApplicationLayer>(
    context: ContextView<App>,
    app: App,
    i: usize,
    kid: u32,
    fragment: Seq<u8>,
    current_time: i64,
    after: ContextView<App>,
    app_after: App,
    out: crate::context::receive::Received,
)
    requires
        context.timely(),
        context.session(i as int) is Some,
        context.session_received(app, i, kid, fragment, current_time, after, app_after, out),
    ensures
        after.timely(),
{
    let was = context.sessions[i as int]->0;
    let (session, taken) = was.fragment_taken(fragment);
    lemma_timely_with_session(context, i, session);
    lemma_timely_without_session(context, i);
    if let Ok(Some((n, fragments))) = taken {
        if let Some(packet) = packet_of(
            crate::wire::nonce_type(n),
            fragments,
            crate::proto::HANDSHAKE_RESPONSE_SIZE as int,
        ) {
            let (kid_new, next, r) = choose|
                kid_new: u32,
                next: SessionView<App>,
                r: Result<Processed, crate::result::ReceiveError>,
            |
                {
                    &&& kid_new != 0
                    &&& !context.in_use(kid_new)
                    &&& #[trigger] session.packet_processed(
                        app,
                        context.s_secret,
                        SessionHandle { index: i },
                        kid,
                        kid_new,
                        n,
                        packet,
                        current_time,
                        next,
                        app_after,
                        r,
                    )
                    &&& context.processed(i, next, r, after, out)
                };
            lemma_timely_refreshed(context, i, next);
        }
    }
}

/// Whatever is called, every session stays in the queue with the time of its next timer.
pub proof fn law_timely_kept<App: ApplicationLayer>(
    before: ContextView<App>,
    step: ContextStep<App>,
    after: ContextView<App>,
)
    requires
        before.wf(),
        before.sessions.len() <= usize::MAX,
        before.timely(),
        before.stepped(step, after),
    ensures
        after.timely(),
{
    reveal(ContextView::stepped);
    match step {
        ContextStep::Open { .. } => {
            if after != before {
                let session = after.sessions.last()->0;
                lemma_timely_new_session(before, session);
            }
        },
        ContextStep::Receive {
            app,
            app_after,
            kid,
            address,
            fragment,
            current_time,
            out,
        } => {
            if after != before && kid != 0 {
                match before.session_of(kid) {
                    Some(i) => {
                        lemma_timely_session_received(
                            before,
                            app,
                            i,
                            kid,
                            fragment,
                            current_time,
                            after,
                            app_after,
                            out,
                        );
                    },
                    None => {
                        if after.sessions != before.sessions {
                            let session = after.sessions.last()->0;
                            lemma_timely_new_session(before, session);
                            assert(after.queue == before.with_new_session(session).queue);
                            assert(after.sessions == before.with_new_session(session).sessions);
                        }
                    },
                }
            } else if after != before {
                assert(after.queue == before.queue);
                assert forall|k: int| 0 <= k < after.queue.len() implies (after.session(
                    (#[trigger] after.queue[k]).1 as int,
                ) matches Some(s) ==> before.session(after.queue[k].1 as int) matches Some(t)
                    && s.zeta == t.zeta) by {
                }
                assert forall|k: int| 0 <= k < after.queue.len() implies (after.session(
                    (#[trigger] after.queue[k]).1 as int,
                ) matches Some(s) ==> after.queue[k].0 <= s.zeta.resend_timer && after.queue[k].0
                    <= s.zeta.timeout_timer && (after.queue[k].0 == s.zeta.resend_timer
                    || after.queue[k].0 == s.zeta.timeout_timer)) by {
                    assert(before.queue[k] == after.queue[k]);
                }
            }
        },
        ContextStep::Send { app, session, mtu, data, sent } => {
            if before.session(session.index as int) is Some {
                let s = before.sessions[session.index as int]->0;
                lemma_timely_without_session(before, session.index);
                lemma_timely_refreshed(
                    before,
                    session.index,
                    s.with_zeta(s.zeta.used(app.settings_spec())),
                );
            }
        },
        ContextStep::Service { app, current_time, packets } => {
            let (states, steps) = choose|
                states: Seq<ContextView<App>>,
                steps: Seq<Option<OutgoingView>>,
            |
                {
                    &&& #[trigger] before.service_run(app, current_time, states, steps)
                    &&& after == states.last().cleaned(current_time)
                    &&& packets == sent_packets(steps)
                    &&& states.last().has_room() ==> due(states.last().queue, current_time) == 0
                };
            lemma_timely_service_run(
                before,
                app,
                current_time,
                states,
                steps,
                steps.len() as int,
            );
            assert(states.last() == states[steps.len() as int]);
        },
        ContextStep::Close { session } => {
            lemma_timely_without_session(before, session.index);
        },
    }
}

/// From the making of a context on, every session is in the queue with the time of its next timer,
/// so that servicing looks at each when a timer of it runs out.
pub proof fn law_always_timely<App: ApplicationLayer>(
    states: Seq<ContextView<App>>,
    steps: Seq<ContextStep<App>>,
    k: int,
)
    requires
        is_context_run(states, steps),
        states[0].queue.len() == 0,
        0 <= k < states.len(),
    ensures
        states[k].timely(),
    decreases k,
{
    if k > 0 {
        law_always_timely(states, steps, k - 1);
        assert(states[k - 1].wf());
        assert(states[k - 1].stepped(steps[k - 1], states[k - 1 + 1]));
        law_timely_kept(states[k - 1], steps[k - 1], states[k]);
    }
}

/// Looking at another session leaves a session, and its places in the queue, alone.
proof fn lemma_looked_at_other<App: ApplicationLayer>(
    before: ContextView<App>,
    app: App,
    j: usize,
    current_time: i64,
    after: ContextView<App>,
    packet: Option<OutgoingView>,
    i: usize,
    timer: i64,
)
    requires
        before.looked_at(app, j, current_time, after, packet),
        j != i,
    ensures
        after.session(i as int) == before.session(i as int),
        after.s_secret == before.s_secret,
        after.handshakes == before.handshakes,
        before.waits_until(i as int, timer) ==> after.waits_until(i as int, timer),
        before.waits_from(i as int, timer) ==> after.waits_from(i as int, timer),
{
    lemma_unscheduled(before.queue, j);
    if before.scheduled(i as int) {
        let k = choose|k: int| 0 <= k < before.queue.len() && before.queue[k].1 == i;
        let e = before.queue[k];
        assert(before.queue.contains(e));
        if after.queue.len() == before.queue.len() && after.queue[k].1 == i {
        } else {
            assert(after.queue.contains(e));
            let k2 = choose|k2: int| 0 <= k2 < after.queue.len() && after.queue[k2] == e;
            assert(after.queue[k2].1 == i);
        }
        assert(after.scheduled(i as int));
    }
    assert forall|k: int| 0 <= k < after.queue.len() && (
    #[trigger] after.queue[k]).1 == i implies before.queue.contains(after.queue[k]) by {
        if after.queue == crate::session_queue::unscheduled(before.queue, j) {
            assert(before.queue.contains(crate::session_queue::unscheduled(before.queue, j)[k]));
        } else {
            assert(after.queue[k] == before.queue[k]);
        }
    }
    assert forall|k: int| 0 <= k < after.queue.len() && (
    #[trigger] after.queue[k]).1 == i implies exists|k0: int|
        0 <= k0 < before.queue.len() && #[trigger] before.queue[k0] == after.queue[k] by {
        assert(before.queue.contains(after.queue[k]));
    }
}

/// Looking at a session does what its timers call for, after which it waits.
proof fn lemma_looked_at_self<App: ApplicationLayer>(
    before: ContextView<App>,
    app: App,
    i: usize,
    current_time: i64,
    after: ContextView<App>,
    packet: Option<OutgoingView>,
)
    requires
        before.looked_at(app, i, current_time, after, packet),
        before.session(i as int) is Some,
        app.settings_spec().valid(),
        app.settings_spec().reckons_from(current_time),
    ensures
        after.s_secret == before.s_secret,
        after.handshakes == before.handshakes,
        after.waits_from(i as int, current_time),
{
    let session = before.sessions[i as int]->0;
    let (kid_new, next, timer, p) = choose|
        kid_new: u32,
        next: SessionView<App>,
        timer: Option<i64>,
        p: Option<Packet>,
    |
        {
            &&& kid_new != 0
            &&& !before.in_use(kid_new)
            &&& #[trigger] session.timers_processed(
                app,
                before.s_secret,
                kid_new,
                current_time,
                next,
                timer,
                p,
            )
            &&& after == if timer is Some {
                before.refreshed(i, next)
            } else {
                before.without_session(i)
            }
            &&& packet == timer_packet(i, next, packet_view(p))
        };
    law_timers(app, session, before.s_secret, kid_new, current_time, next, timer, p);
    lemma_unscheduled(before.queue, i);
}

/// Where a session is in the course of a service: it has not been looked at yet, or it was, once.
proof fn lemma_service_tracks<App: ApplicationLayer>(
    context: ContextView<App>,
    app: App,
    current_time: i64,
    states: Seq<ContextView<App>>,
    steps: Seq<Option<OutgoingView>>,
    i: usize,
    timer: i64,
    n: int,
) -> (k: Option<int>)
    requires
        context.service_run(app, current_time, states, steps),
        context.session(i as int) is Some,
        context.waits_until(i as int, timer),
        timer < current_time || context.waits_from(i as int, current_time),
        app.settings_spec().valid(),
        app.settings_spec().reckons_from(current_time),
        0 <= n <= steps.len(),
    ensures
        states[n].s_secret == context.s_secret,
        states[n].handshakes == context.handshakes,
        match k {
            None => {
                &&& states[n].session(i as int) == context.session(i as int)
                &&& states[n].waits_until(i as int, timer)
            },
            Some(k) => {
                &&& 0 <= k < n
                &&& timer < current_time
                &&& states[k].session(i as int) == context.session(i as int)
                &&& states[k].s_secret == context.s_secret
                &&& states[k].looked_at(app, i, current_time, states[k + 1], steps[k])
                &&& states[n].session(i as int) == states[k + 1].session(i as int)
                &&& states[n].waits_from(i as int, current_time)
            },
        },
    decreases n,
{
    if n == 0 {
        None
    } else {
        let found = lemma_service_tracks(
            context,
            app,
            current_time,
            states,
            steps,
            i,
            timer,
            n - 1,
        );
        let before = states[n - 1];
        assert(before.service_stepped(app, current_time, states[n - 1 + 1], steps[n - 1]));
        let q = choose|q: int|
            {
                &&& #[trigger] is_first(before.queue, q)
                &&& before.queue[q].0 < current_time
                &&& before.looked_at(
                    app,
                    before.queue[q].1,
                    current_time,
                    states[n],
                    steps[n - 1],
                )
            };
        let j = before.queue[q].1;
        if j == i {
            assert(before.queue[q].1 == i);
            assert(found is None);
            assert(before.queue[q].0 == timer);
            lemma_looked_at_self(before, app, i, current_time, states[n], steps[n - 1]);
            Some(n - 1)
        } else {
            lemma_looked_at_other(
                before,
                app,
                j,
                current_time,
                states[n],
                steps[n - 1],
                i,
                timer,
            );
            lemma_looked_at_other(
                before,
                app,
                j,
                current_time,
                states[n],
                steps[n - 1],
                i,
                current_time,
            );
            found
        }
    }
}

/// A packet of a step is sent.
proof fn lemma_step_sent(steps: Seq<Option<OutgoingView>>, k: int)
    requires
        0 <= k < steps.len(),
        steps[k] is Some,
    ensures
        sent_packets(steps).contains(steps[k]->0),
    decreases steps.len(),
{
    let rest = sent_packets(steps.drop_last());
    let all = sent_packets(steps);
    if k < steps.len() - 1 {
        assert(steps.drop_last()[k] == steps[k]);
        lemma_step_sent(steps.drop_last(), k);
        let j = choose|j: int| 0 <= j < rest.len() && rest[j] == steps[k]->0;
        assert(all[j] == steps[k]->0);
    } else {
        assert(all[rest.len() as int] == steps[k]->0);
    }
}

/// The one time at which a session waits in the queue of a timely context.
proof fn lemma_waits_until<App: ApplicationLayer>(context: ContextView<App>, i: usize) -> (timer:
    i64)
    requires
        context.wf(),
        context.timely(),
        context.session(i as int) is Some,
    ensures
        context.waits_until(i as int, timer),
        ({
            let zeta = (context.sessions[i as int]->0).zeta;
            &&& timer <= zeta.resend_timer
            &&& timer <= zeta.timeout_timer
            &&& timer == zeta.resend_timer || timer == zeta.timeout_timer
        }),
{
    let s = context.sessions[i as int]->0;
    assert(context.scheduled(i as int));
    let k = choose|k: int| 0 <= k < context.queue.len() && context.queue[k].1 == i;
    assert(context.session(context.queue[k].1 as int) == Some(s));
    let timer = context.queue[k].0;
    assert forall|j: int| 0 <= j < context.queue.len() && (
    #[trigger] context.queue[j]).1 == i implies context.queue[j].0 == timer by {
        assert(context.session(context.queue[j].1 as int) == Some(s));
    }
    timer
}

/// Servicing a context does for every session of which a timer has run out what its timers call
/// for, and what it has to send is among the packets to send; a session that is settled or waits
/// goes on with what came of that, and one that has expired is gone. This is so as long as there is
/// an id that a new key could get.
pub proof fn law_service_does_timers<App: ApplicationLayer>(
    before: ContextView<App>,
    app: App,
    current_time: i64,
    after: ContextView<App>,
    packets: Seq<OutgoingView>,
    i: usize,
    free: u32,
)
    requires
        before.wf(),
        before.timely(),
        app.settings_spec().valid(),
        app.settings_spec().reckons_from(current_time),
        before.serviced(app, current_time, after, packets),
        before.session(i as int) matches Some(s) && (s.zeta.resend_timer < current_time
            || s.zeta.timeout_timer < current_time),
        free != 0,
        !after.map.contains_key(free),
        handshake_from(before.handshakes, free, 0) is None,
    ensures
        exists|kid_new: u32, next: SessionView<App>, timer: Option<i64>, p: Option<Packet>|
            {
                &&& kid_new != 0
                &&& #[trigger] (before.sessions[i as int]->0).timers_processed(
                    app,
                    before.s_secret,
                    kid_new,
                    current_time,
                    next,
                    timer,
                    p,
                )
                &&& after.session(i as int) == if timer is Some {
                    Some(next)
                } else {
                    None
                }
                &&& p matches Some(packet) ==> packets.contains(
                    OutgoingView {
                        to: Some(SessionHandle { index: i }),
                        packet: packet@,
                        hk_send: if next.zeta.beta is A1 {
                            None
                        } else {
                            Some(next.zeta.hk_send)
                        },
                    },
                )
            },
{
    let s = before.sessions[i as int]->0;
    let (states, steps) = choose|
        states: Seq<ContextView<App>>,
        steps: Seq<Option<OutgoingView>>,
    |
        {
            &&& #[trigger] before.service_run(app, current_time, states, steps)
            &&& after == states.last().cleaned(current_time)
            &&& packets == sent_packets(steps)
            &&& states.last().has_room() ==> due(states.last().queue, current_time) == 0
        };
    let n = steps.len() as int;
    assert(states.last() == states[n]);
    let timer = lemma_waits_until(before, i);
    let found = lemma_service_tracks(before, app, current_time, states, steps, i, timer, n);
    assert(!states[n].in_use(free));
    assert(states[n].has_room());
    if found is None {
        assert(states[n].scheduled(i as int));
        let k = choose|k: int| 0 <= k < states[n].queue.len() && states[n].queue[k].1 == i;
        lemma_some_due(states[n].queue, k, current_time);
        assert(false);
    }
    let k = found->0;
    let was = states[k];
    let (kid_new, next, again, p) = choose|
        kid_new: u32,
        next: SessionView<App>,
        timer: Option<i64>,
        p: Option<Packet>,
    |
        {
            &&& kid_new != 0
            &&& !was.in_use(kid_new)
            &&& #[trigger] s.timers_processed(
                app,
                was.s_secret,
                kid_new,
                current_time,
                next,
                timer,
                p,
            )
            &&& states[k + 1] == if timer is Some {
                was.refreshed(i, next)
            } else {
                was.without_session(i)
            }
            &&& steps[k] == timer_packet(i, next, packet_view(p))
        };
    if p is Some {
        lemma_step_sent(steps, k);
    }
    assert(after.session(i as int) == states[n].session(i as int));
    assert(s.timers_processed(app, before.s_secret, kid_new, current_time, next, again, p));
}

/// Servicing a context leaves every session alone of which no timer has run out.
pub proof fn law_service_leaves_others<App: ApplicationLayer>(
    before: ContextView<App>,
    app: App,
    current_time: i64,
    after: ContextView<App>,
    packets: Seq<OutgoingView>,
    i: usize,
)
    requires
        before.wf(),
        before.timely(),
        app.settings_spec().valid(),
        app.settings_spec().reckons_from(current_time),
        before.serviced(app, current_time, after, packets),
        before.session(i as int) matches Some(s) && s.zeta.resend_timer >= current_time
            && s.zeta.timeout_timer >= current_time,
    ensures
        after.session(i as int) == before.session(i as int),
{
    let (states, steps) = choose|
        states: Seq<ContextView<App>>,
        steps: Seq<Option<OutgoingView>>,
    |
        {
            &&& #[trigger] before.service_run(app, current_time, states, steps)
            &&& after == states.last().cleaned(current_time)
            &&& packets == sent_packets(steps)
            &&& states.last().has_room() ==> due(states.last().queue, current_time) == 0
        };
    let n = steps.len() as int;
    assert(states.last() == states[n]);
    let timer = lemma_waits_until(before, i);
    assert(before.waits_from(i as int, current_time));
    let found = lemma_service_tracks(before, app, current_time, states, steps, i, timer, n);
}

/// A serviced context is to be serviced again before any timer of any of its sessions runs out, and
/// none has run out. This is so as long as there is an id that a new key could get.
pub proof fn law_serviced_in_time<App: ApplicationLayer>(
    before: ContextView<App>,
    app: App,
    current_time: i64,
    after: ContextView<App>,
    packets: Seq<OutgoingView>,
    timeout: i64,
    i: usize,
    free: u32,
)
    requires
        before.wf(),
        before.sessions.len() <= usize::MAX,
        before.timely(),
        app.settings_spec().valid(),
        app.settings_spec().reckons_from(current_time),
        before.serviced(app, current_time, after, packets),
        after.wf(),
        after.session(i as int) is Some,
        free != 0,
        !after.map.contains_key(free),
        handshake_from(before.handshakes, free, 0) is None,
        timeout >= 0,
    ensures
        ({
            let zeta = (after.sessions[i as int]->0).zeta;
            let wait = interval(after.queue, timeout, current_time);
            &&& zeta.resend_timer >= current_time
            &&& zeta.timeout_timer >= current_time
            &&& current_time + wait <= zeta.resend_timer
            &&& current_time + wait <= zeta.timeout_timer
            &&& wait <= timeout
        }),
{
    let (states, steps) = choose|
        states: Seq<ContextView<App>>,
        steps: Seq<Option<OutgoingView>>,
    |
        {
            &&& #[trigger] before.service_run(app, current_time, states, steps)
            &&& after == states.last().cleaned(current_time)
            &&& packets == sent_packets(steps)
            &&& states.last().has_room() ==> due(states.last().queue, current_time) == 0
        };
    let n = steps.len() as int;
    assert(states.last() == states[n]);
    lemma_timely_service_run(before, app, current_time, states, steps, n);
    assert(after.timely()) by {
        assert(after.queue == states[n].queue);
        assert(after.sessions == states[n].sessions);
    }
    lemma_service_keeps_handshakes(before, app, current_time, states, steps, n);
    assert(!states[n].in_use(free));
    assert(states[n].has_room());
    let timer = lemma_waits_until(after, i);
    let k = choose|k: int| 0 <= k < after.queue.len() && after.queue[k].1 == i;
    assert(after.queue[k].1 == i);
    if timer < current_time {
        lemma_some_due(after.queue, k, current_time);
    }
    lemma_first_interval_below(after.queue, k, timeout as int, current_time);
    crate::context::service::law_interval_bounded(after.queue, timeout, current_time);
}

/// Looking at sessions leaves the handshakes alone.
proof fn lemma_service_keeps_handshakes<App: ApplicationLayer>(
    context: ContextView<App>,
    app: App,
    current_time: i64,
    states: Seq<ContextView<App>>,
    steps: Seq<Option<OutgoingView>>,
    n: int,
)
    requires
        context.service_run(app, current_time, states, steps),
        0 <= n <= steps.len(),
    ensures
        states[n].handshakes == context.handshakes,
        states[n].fragments == context.fragments,
        states[n].salt == context.salt,
        states[n].s_secret == context.s_secret,
        states[n].sessions.len() == context.sessions.len(),
    decreases n,
{
    if n > 0 {
        lemma_service_keeps_handshakes(context, app, current_time, states, steps, n - 1);
        assert(states[n - 1].service_stepped(
            app,
            current_time,
            states[n - 1 + 1],
            steps[n - 1],
        ));
    }
}

/// Servicing a context drops exactly the handshakes and the unfinished packets whose time has come.
pub proof fn law_service_drops<App: ApplicationLayer>(
    before: ContextView<App>,
    app: App,
    current_time: i64,
    after: ContextView<App>,
    packets: Seq<OutgoingView>,
)
    requires
        before.serviced(app, current_time, after, packets),
    ensures
        forall|j: int|
            0 <= j < before.handshakes.len() && (#[trigger] before.handshakes[j]).expiry
                >= current_time ==> after.handshakes.contains(before.handshakes[j]),
        forall|j: int|
            0 <= j < after.handshakes.len() ==> (#[trigger] after.handshakes[j]).expiry
                >= current_time && before.handshakes.contains(after.handshakes[j]),
        forall|j: int|
            0 <= j < before.fragments.len() && (#[trigger] before.fragments[j]).expiry
                >= current_time ==> after.fragments.contains(before.fragments[j]),
        forall|j: int|
            0 <= j < after.fragments.len() ==> (#[trigger] after.fragments[j]).expiry
                >= current_time && before.fragments.contains(after.fragments[j]),
        after.salt == before.salt,
        after.s_secret == before.s_secret,
        after.sessions.len() == before.sessions.len(),
{
    let (states, steps) = choose|
        states: Seq<ContextView<App>>,
        steps: Seq<Option<OutgoingView>>,
    |
        {
            &&& #[trigger] before.service_run(app, current_time, states, steps)
            &&& after == states.last().cleaned(current_time)
            &&& packets == sent_packets(steps)
            &&& states.last().has_room() ==> due(states.last().queue, current_time) == 0
        };
    let n = steps.len() as int;
    assert(states.last() == states[n]);
    lemma_service_keeps_handshakes(before, app, current_time, states, steps, n);
    assert forall|j: int|
        0 <= j < before.handshakes.len() && (#[trigger] before.handshakes[j]).expiry
            >= current_time implies after.handshakes.contains(before.handshakes[j]) by {
        law_alive_kept::<Handshake<App>>(before.handshakes, current_time, j);
    }
    assert forall|j: int| 0 <= j < after.handshakes.len() implies (
    #[trigger] after.handshakes[j]).expiry >= current_time && before.handshakes.contains(
        after.handshakes[j],
    ) by {
        crate::expiry::law_alive_entries::<Handshake<App>>(before.handshakes, current_time, j);
    }
    assert forall|j: int|
        0 <= j < before.fragments.len() && (#[trigger] before.fragments[j]).expiry
            >= current_time implies after.fragments.contains(before.fragments[j]) by {
        law_alive_kept::<FragEntry>(before.fragments, current_time, j);
    }
    assert forall|j: int| 0 <= j < after.fragments.len() implies (
    #[trigger] after.fragments[j]).expiry >= current_time && before.fragments.contains(
        after.fragments[j],
    ) by {
        crate::expiry::law_alive_entries::<FragEntry>(before.fragments, current_time, j);
    }
}

} // verus!
