//! Periodic service: timers of sessions, and what is dropped when its time has come.

use vstd::prelude::*;

use crate::application::ApplicationLayer;
use crate::context::{
    lemma_alive_distinct, lemma_refreshed_wf, lemma_without_session_wf, session_view, Context,
    ContextView,
};
use crate::expiry::{alive, law_alive_entries};
use crate::frag_cache::{lemma_alive_cache_sound, FragEntry};
use crate::handshake_cache::{lemma_alive_handshakes_sound, Handshake};
use crate::outgoing::{outgoing_view, Outgoing, OutgoingView};
use crate::result::SessionHandle;
use crate::session::SessionView;
use crate::session_queue::{is_first, lemma_unscheduled, rescheduled, unscheduled};
use crate::timers::law_timers;
use crate::zeta::completion::packet_view;
use crate::zeta::{Packet, PacketView, ZsspAutomata};

verus! {

/// The number of entries whose time is before `current_time`.
pub open spec fn due(queue: Seq<(i64, usize)>, current_time: i64) -> nat
    decreases queue.len(),
{
    if queue.len() == 0 {
        0
    } else {
        due(queue.drop_last(), current_time) + if queue.last().0 < current_time {
            1nat
        } else {
            0
        }
    }
}

/// The time until a context is to be serviced again: until the first session in the queue is to
/// be looked at, but no longer than `timeout`.
pub open spec fn interval(queue: Seq<(i64, usize)>, timeout: i64, current_time: i64) -> int {
    if due(queue, current_time) > 0 {
        0
    } else {
        first_interval(queue, timeout as int, current_time)
    }
}

/// The least of `bound` and the times until the sessions in the queue are to be looked at.
pub open spec fn first_interval(queue: Seq<(i64, usize)>, bound: int, current_time: i64) -> int
    decreases queue.len(),
{
    if queue.len() == 0 {
        bound
    } else {
        let rest = first_interval(queue.drop_last(), bound, current_time);
        if queue.last().0 - current_time < rest {
            queue.last().0 - current_time
        } else {
            rest
        }
    }
}

/// The packets to send, in order.
pub open spec fn sent_packets(steps: Seq<Option<OutgoingView>>) -> Seq<OutgoingView>
    decreases steps.len(),
{
    if steps.len() == 0 {
        seq![]
    } else {
        let rest = sent_packets(steps.drop_last());
        match steps.last() {
            Some(packet) => rest.push(packet),
            None => rest,
        }
    }
}

/// What several packets to send hold.
pub open spec fn outgoing_views(packets: Seq<Outgoing>) -> Seq<OutgoingView> {
    Seq::new(packets.len(), |i: int| packets[i]@)
}

/// The packet that the session at place `i` has to send. A hello goes out unprotected.
pub open spec fn timer_packet<App: ApplicationLayer>(
    i: usize,
    session: SessionView<App>,
    packet: Option<PacketView>,
) -> Option<OutgoingView> {
    match packet {
        None => None,
        Some(packet) => Some(
            OutgoingView {
                to: Some(SessionHandle { index: i }),
                packet,
                hk_send: if session.zeta.beta is A1 {
                    None
                } else {
                    Some(session.zeta.hk_send)
                },
            },
        ),
    }
}

impl<App: ApplicationLayer> ContextView<App> {
    /// `after` and `packet` may be what comes of looking at the session at place `i`. Where it
    /// has expired it is no longer owned by the context.
    pub open spec fn looked_at(
        self,
        app: App,
        i: usize,
        current_time: i64,
        after: Self,
        packet: Option<OutgoingView>,
    ) -> bool {
        match self.session(i as int) {
            None => {
                &&& after == (ContextView { queue: unscheduled(self.queue, i), ..self })
                &&& packet is None
            },
            Some(session) => exists|
                kid_new: u32,
                next: SessionView<App>,
                timer: Option<i64>,
                p: Option<Packet>,
            |
                {
                    &&& kid_new != 0
                    &&& !self.in_use(kid_new)
                    &&& #[trigger] session.timers_processed(
                        app,
                        self.s_secret,
                        kid_new,
                        current_time,
                        next,
                        timer,
                        p,
                    )
                    &&& after == if timer is Some {
                        self.refreshed(i, next)
                    } else {
                        self.without_session(i)
                    }
                    &&& packet == timer_packet(i, next, packet_view(p))
                },
        }
    }

    /// `after` and `packet` may be what comes of looking at the session that is to be looked at
    /// first, which is due.
    pub open spec fn service_stepped(
        self,
        app: App,
        current_time: i64,
        after: Self,
        packet: Option<OutgoingView>,
    ) -> bool {
        exists|q: int|
            {
                &&& #[trigger] is_first(self.queue, q)
                &&& self.queue[q].0 < current_time
                &&& self.looked_at(app, self.queue[q].1, current_time, after, packet)
            }
    }

    /// `states` are states of a context, each of which comes from the one before it by looking at
    /// the session that is to be looked at first; `steps` are the packets to send on the way.
    pub open spec fn service_run(
        self,
        app: App,
        current_time: i64,
        states: Seq<Self>,
        steps: Seq<Option<OutgoingView>>,
    ) -> bool {
        &&& states.len() == steps.len() + 1
        &&& states[0] == self
        &&& forall|k: int|
            0 <= k < steps.len() ==> (#[trigger] states[k]).service_stepped(
                app,
                current_time,
                states[k + 1],
                steps[k],
            )
    }

    /// `after` and `packets` may be what comes of servicing the context: the sessions that are due
    /// are looked at, for as long as there is an id that a new key could get, and what is out of
    /// time is dropped.
    pub open spec fn serviced(
        self,
        app: App,
        current_time: i64,
        after: Self,
        packets: Seq<OutgoingView>,
    ) -> bool {
        exists|states: Seq<Self>, steps: Seq<Option<OutgoingView>>|
            {
                &&& #[trigger] self.service_run(app, current_time, states, steps)
                &&& after == states.last().cleaned(current_time)
                &&& packets == sent_packets(steps)
                &&& states.last().has_room() ==> due(states.last().queue, current_time) == 0
            }
    }

    /// The context without the packets and the handshakes that have not been completed in time.
    pub open spec fn cleaned(self, current_time: i64) -> Self {
        ContextView {
            fragments: alive::<FragEntry>(self.fragments, current_time),
            handshakes: alive::<Handshake<App>>(self.handshakes, current_time),
            ..self
        }
    }
}

/// Looking at a session that is due again only later leaves fewer sessions due.
proof fn lemma_rescheduled_due(
    queue: Seq<(i64, usize)>,
    session: usize,
    timer: i64,
    current_time: i64,
)
    requires
        timer >= current_time,
    ensures
        due(rescheduled(queue, session, timer), current_time) <= due(queue, current_time),
        (exists|q: int|
            0 <= q < queue.len() && (#[trigger] queue[q]).1 == session && queue[q].0
                < current_time) ==> due(rescheduled(queue, session, timer), current_time) < due(
            queue,
            current_time,
        ),
    decreases queue.len(),
{
    if queue.len() > 0 {
        let rest = queue.drop_last();
        let after = rescheduled(queue, session, timer);
        assert(after.drop_last() =~= rescheduled(rest, session, timer));
        lemma_rescheduled_due(rest, session, timer, current_time);
        if exists|q: int|
            0 <= q < queue.len() && (#[trigger] queue[q]).1 == session && queue[q].0
                < current_time {
            let q = choose|q: int|
                0 <= q < queue.len() && (#[trigger] queue[q]).1 == session && queue[q].0
                    < current_time;
            if q < queue.len() - 1 {
                assert(rest[q].1 == session && rest[q].0 < current_time);
            }
        }
    }
}

/// Taking a session that is due out of the queue leaves fewer sessions due.
proof fn lemma_unscheduled_due(queue: Seq<(i64, usize)>, session: usize, current_time: i64)
    ensures
        due(unscheduled(queue, session), current_time) <= due(queue, current_time),
        (exists|q: int|
            0 <= q < queue.len() && (#[trigger] queue[q]).1 == session && queue[q].0
                < current_time) ==> due(unscheduled(queue, session), current_time) < due(
            queue,
            current_time,
        ),
    decreases queue.len(),
{
    if queue.len() > 0 {
        let rest = queue.drop_last();
        let left = unscheduled(queue, session);
        lemma_unscheduled_due(rest, session, current_time);
        if queue.last().1 != session {
            assert(left.drop_last() =~= unscheduled(rest, session));
        }
        if exists|q: int|
            0 <= q < queue.len() && (#[trigger] queue[q]).1 == session && queue[q].0
                < current_time {
            let q = choose|q: int|
                0 <= q < queue.len() && (#[trigger] queue[q]).1 == session && queue[q].0
                    < current_time;
            if q < queue.len() - 1 {
                assert(rest[q].1 == session && rest[q].0 < current_time);
            }
        }
    }
}

/// Nothing is due where the first entry is not.
proof fn lemma_none_due(queue: Seq<(i64, usize)>, current_time: i64)
    requires
        forall|k: int| 0 <= k < queue.len() ==> (#[trigger] queue[k]).0 >= current_time,
    ensures
        due(queue, current_time) == 0,
    decreases queue.len(),
{
    if queue.len() > 0 {
        assert(queue.last() == queue[queue.len() - 1]);
        assert forall|k: int| 0 <= k < queue.drop_last().len() implies (
        #[trigger] queue.drop_last()[k]).0 >= current_time by {
            assert(queue[k].0 >= current_time);
        }
        lemma_none_due(queue.drop_last(), current_time);
    }
}

/// Something is due where an entry is.
pub proof fn lemma_some_due(queue: Seq<(i64, usize)>, q: int, current_time: i64)
    requires
        0 <= q < queue.len(),
        queue[q].0 < current_time,
    ensures
        due(queue, current_time) > 0,
    decreases queue.len(),
{
    if q < queue.len() - 1 {
        assert(queue.drop_last()[q] == queue[q]);
        lemma_some_due(queue.drop_last(), q, current_time);
    }
}

/// The first entry of a queue says how long it takes until a session is to be looked at.
proof fn lemma_first_interval(queue: Seq<(i64, usize)>, q: int, bound: int, current_time: i64)
    requires
        0 <= q < queue.len(),
        forall|k: int| 0 <= k < queue.len() ==> queue[q].0 <= (#[trigger] queue[k]).0,
    ensures
        first_interval(queue, bound, current_time) == if queue[q].0 - current_time < bound {
            queue[q].0 - current_time
        } else {
            bound
        },
{
    lemma_first_interval_from(queue, queue[q].0, bound, current_time);
    lemma_first_interval_below(queue, q, bound, current_time);
}

/// No time until a session is to be looked at is less than that of the first one.
proof fn lemma_first_interval_from(
    queue: Seq<(i64, usize)>,
    timer: i64,
    bound: int,
    current_time: i64,
)
    requires
        forall|k: int| 0 <= k < queue.len() ==> timer <= (#[trigger] queue[k]).0,
    ensures
        first_interval(queue, bound, current_time) <= bound,
        first_interval(queue, bound, current_time) >= if timer - current_time < bound {
            timer - current_time
        } else {
            bound
        },
    decreases queue.len(),
{
    if queue.len() > 0 {
        assert(queue.last() == queue[queue.len() - 1]);
        assert forall|k: int| 0 <= k < queue.drop_last().len() implies timer <= (
        #[trigger] queue.drop_last()[k]).0 by {
            assert(timer <= queue[k].0);
        }
        lemma_first_interval_from(queue.drop_last(), timer, bound, current_time);
    }
}

/// The time until the first session is to be looked at is no more than that of any one.
pub proof fn lemma_first_interval_below(
    queue: Seq<(i64, usize)>,
    q: int,
    bound: int,
    current_time: i64,
)
    requires
        0 <= q < queue.len(),
    ensures
        first_interval(queue, bound, current_time) <= queue[q].0 - current_time,
    decreases queue.len(),
{
    if q < queue.len() - 1 {
        assert(queue.drop_last()[q] == queue[q]);
        lemma_first_interval_below(queue.drop_last(), q, bound, current_time);
    }
}

/// A context is to be serviced again in no more than the time that incomplete packets are kept.
pub proof fn law_interval_bounded(queue: Seq<(i64, usize)>, timeout: i64, current_time: i64)
    requires
        timeout >= 0,
    ensures
        0 <= interval(queue, timeout, current_time) <= timeout,
    decreases queue.len(),
{
    if due(queue, current_time) == 0 {
        assert forall|k: int| 0 <= k < queue.len() implies current_time <= (
        #[trigger] queue[k]).0 by {
            if queue[k].0 < current_time {
                lemma_some_due(queue, k, current_time);
            }
        }
        lemma_first_interval_from(queue, current_time, timeout as int, current_time);
    }
}

/// A context in which an entry of the queue that leads to no session is gone stays well formed.
proof fn lemma_unscheduled_wf<App: ApplicationLayer>(context: ContextView<App>, i: usize)
    requires
        context.wf(),
        context.session(i as int) is None,
    ensures
        (ContextView { queue: unscheduled(context.queue, i), ..context }).wf(),
{
    let after = ContextView { queue: unscheduled(context.queue, i), ..context };
    lemma_unscheduled(context.queue, i);
    assert forall|k: int| 0 <= k < after.queue.len() implies (#[trigger] after.queue[k]).1
        < after.sessions.len() by {
        let e = after.queue[k];
        assert(context.queue.contains(e));
    }
    assert forall|j: int| 0 <= j < after.sessions.len() implies ((
    #[trigger] after.sessions[j]) matches Some(s) ==> s.wf() && after.registered(j, s.zeta)
        && after.scheduled(j)) by {
        if after.sessions[j] is Some {
            assert(context.sessions[j] is Some);
            assert(context.registered(j, (after.sessions[j]->0).zeta));
            assert(context.scheduled(j));
            let k = choose|k: int| 0 <= k < context.queue.len() && context.queue[k].1 == j;
            let e = context.queue[k];
            assert(context.queue.contains(e));
            assert(after.queue.contains(e));
            let k2 = choose|k2: int| 0 <= k2 < after.queue.len() && after.queue[k2] == e;
            assert(after.queue[k2].1 == j);
        }
    }
}

/// A context in which what is out of time has been dropped stays well formed.
proof fn lemma_cleaned_wf<App: ApplicationLayer>(context: ContextView<App>, current_time: i64)
    requires
        context.wf(),
    ensures
        context.cleaned(current_time).wf(),
{
    let after = context.cleaned(current_time);
    lemma_alive_cache_sound(context.fragments, current_time);
    lemma_alive_handshakes_sound(context.handshakes, current_time);
    lemma_alive_distinct(context.handshakes, current_time);
    assert forall|j: int| 0 <= j < after.handshakes.len() implies !after.map.contains_key(
        (#[trigger] after.handshakes[j]).b2.kid_recv,
    ) by {
        law_alive_entries::<Handshake<App>>(context.handshakes, current_time, j);
        let k = choose|k: int|
            0 <= k < context.handshakes.len() && context.handshakes[k] == after.handshakes[j];
        assert(!context.map.contains_key(context.handshakes[k].b2.kid_recv));
    }
    assert forall|j: int| 0 <= j < after.sessions.len() implies ((
    #[trigger] after.sessions[j]) matches Some(s) ==> s.wf() && after.registered(j, s.zeta)
        && after.scheduled(j)) by {
        if after.sessions[j] is Some {
            assert(context.sessions[j] is Some);
            assert(context.registered(j, (after.sessions[j]->0).zeta));
            assert(context.scheduled(j));
            let k = choose|k: int| 0 <= k < context.queue.len() && context.queue[k].1 == j;
            assert(after.queue[k].1 == j);
        }
    }
}

impl<App: ApplicationLayer> Context<App> {
    /// Looks at the session at place `i`: the packet to send.
    fn look_at(&mut self, app: &App, i: usize, current_time: i64) -> (r: Option<Outgoing>)
        requires
            old(self)@.wf(),
            old(self)@.has_room(),
            exists|q: int|
                0 <= q < old(self)@.queue.len() && (#[trigger] old(self)@.queue[q]).1 == i
                    && old(self)@.queue[q].0 < current_time,
            app.settings_spec().valid(),
            app.settings_spec().reckons_from(current_time),
        ensures
            old(self)@.looked_at(*app, i, current_time, final(self)@, outgoing_view(r)),
            final(self)@.wf(),
            due(final(self)@.queue, current_time) < due(old(self)@.queue, current_time),
            r matches Some(o) ==> o@.packet.measured(),
    {
        let ghost before = self@;
        proof {
            lemma_unscheduled_due(before.queue, i, current_time);
        }
        if i < self.0.sessions.len() {
            assert(before.sessions[i as int] == session_view(self.0.sessions@[i as int]));
        }
        if i >= self.0.sessions.len() || self.0.sessions[i].is_none() {
            self.0.session_queue.remove(i);
            proof {
                lemma_unscheduled_wf(before, i);
                assert(self@ == (ContextView {
                    queue: unscheduled(before.queue, i),
                    ..before
                }));
            }
            return None;
        }
        let ghost was = before.sessions[i as int]->0;
        let kid_new = self.draw_kid();
        let mut session = self.take_session(i);
        assert(was.wf());
        self.0.session_map.remove_kids(&session.zeta);
        let (timer, packet) = session.process_timers(
            app,
            &mut self.0.rng,
            &self.0.s_secret,
            kid_new,
            current_time,
        );
        let ghost next = session@;
        proof {
            law_timers(
                *app,
                was,
                before.s_secret,
                kid_new,
                current_time,
                next,
                timer,
                packet,
            );
        }
        let handle = SessionHandle { index: i };
        let is_a1 = match &session.zeta.beta {
            ZsspAutomata::A1 { .. } => true,
            _ => false,
        };
        let hk_send = if is_a1 {
            None
        } else {
            Some(session.zeta.hk_send.clone())
        };
        let ghost sent = packet_view(packet);
        let outgoing = match packet {
            Some(packet) => Some(Outgoing { to: Some(handle), packet, hk_send }),
            None => None,
        };
        assert(outgoing_view(outgoing) == timer_packet(i, next, sent));
        if let Some(timer) = timer {
            self.0.session_map.add_kids(&session.zeta, i);
            self.0.session_queue.change_priority(i, timer);
            self.put_session(i, session);
            assert(self@.sessions =~= before.refreshed(i, next).sessions);
            proof {
                lemma_refreshed_wf(before, i, next, kid_new);
                lemma_rescheduled_due(before.queue, i, timer, current_time);
            }
        } else {
            self.0.session_queue.remove(i);
            proof {
                lemma_without_session_wf(before, i);
                assert(self@ == before.without_session(i));
            }
        }
        outgoing
    }

    /// Looks at the session that is to be looked at first, if it is due: the packet to send;
    /// `None` where no session is due.
    pub fn service_step(&mut self, app: &App, current_time: i64) -> (r: Option<Option<Outgoing>>)
        requires
            old(self)@.wf(),
            old(self)@.has_room(),
            app.settings_spec().valid(),
            app.settings_spec().reckons_from(current_time),
        ensures
            match r {
                None => {
                    &&& final(self)@ == old(self)@
                    &&& due(old(self)@.queue, current_time) == 0
                },
                Some(packet) => {
                    &&& old(self)@.service_stepped(
                        *app,
                        current_time,
                        final(self)@,
                        outgoing_view(packet),
                    )
                    &&& due(final(self)@.queue, current_time) < due(
                        old(self)@.queue,
                        current_time,
                    )
                    &&& packet matches Some(o) ==> o@.packet.measured()
                },
            },
            final(self)@.wf(),
    {
        match self.0.session_queue.peek() {
            None => None,
            Some(q) => {
                let (timer, i) = self.0.session_queue.entries[q];
                if timer >= current_time {
                    proof {
                        lemma_none_due(self@.queue, current_time);
                    }
                    return None;
                }
                assert(is_first(self@.queue, q as int));
                Some(self.look_at(app, i, current_time))
            },
        }
    }

    /// The time until the context is to be serviced again.
    fn time_to_service(&self, timeout: i64, current_time: i64) -> (r: i64)
        requires
            timeout >= 0,
            current_time + timeout <= i64::MAX,
        ensures
            r == interval(self@.queue, timeout, current_time),
    {
        match self.0.session_queue.peek() {
            None => timeout,
            Some(q) => {
                let (timer, _) = self.0.session_queue.entries[q];
                if timer < current_time {
                    proof {
                        lemma_some_due(self@.queue, q as int, current_time);
                    }
                    return 0;
                }
                proof {
                    lemma_none_due(self@.queue, current_time);
                    lemma_first_interval(self@.queue, q as int, timeout as int, current_time);
                }
                let bound: i64 = current_time + timeout;
                let next: i64 = if timer < bound {
                    timer
                } else {
                    bound
                };
                next - current_time
            },
        }
    }

    /// Perform periodic background service and cleanup tasks.
    ///
    /// This returns the number of milliseconds until it should be called again, and the packets
    /// to send. The caller should try to satisfy the former but small variations in timing of up
    /// to +/- a second or two are not a problem.
    ///
    /// Sessions that are due are looked at one after the other, for as long as there is an id
    /// that a new key could get.
    ///
    /// * `app` - Interface to application using ZSSP
    /// * `current_time` - The time in milliseconds
    pub fn service(&mut self, app: &App, current_time: i64) -> (r: (i64, Vec<Outgoing>))
        requires
            old(self)@.wf(),
            app.settings_spec().valid(),
            app.settings_spec().reckons_from(current_time),
        ensures
            old(self)@.serviced(*app, current_time, final(self)@, outgoing_views(r.1@)),
            r.0 == interval(
                final(self)@.queue,
                app.settings_spec().fragment_assembly_timeout,
                current_time,
            ),
            final(self)@.wf(),
            forall|k: int| 0 <= k < r.1@.len() ==> (#[trigger] r.1@[k])@.packet.measured(),
    {
        let ghost before = self@;
        let ghost mut states: Seq<ContextView<App>> = seq![before];
        let ghost mut steps: Seq<Option<OutgoingView>> = seq![];
        let settings = app.settings();
        let mut packets: Vec<Outgoing> = Vec::new();
        assert(outgoing_views(packets@) =~= sent_packets(steps));
        // This update system takes heavy advantage of the fact that sessions only need to be
        // updated either roughly every second or roughly every hour. That big gap allows for
        // minor optimizations. If the gap changes (unlikely) this code may need to be rewritten.
        loop
            invariant
                self@.wf(),
                before.service_run(*app, current_time, states, steps),
                states.last() == self@,
                outgoing_views(packets@) == sent_packets(steps),
                forall|k: int|
                    0 <= k < packets@.len() ==> (#[trigger] packets@[k])@.packet.measured(),
                app.settings_spec().valid(),
                app.settings_spec().reckons_from(current_time),
            ensures
                self@.has_room() ==> due(self@.queue, current_time) == 0,
            decreases due(self@.queue, current_time),
        {
            if !self.has_room() {
                break;
            }
            let step = self.service_step(app, current_time);
            match step {
                None => {
                    break;
                },
                Some(packet) => {
                    let ghost view = outgoing_view(packet);
                    proof {
                        let states0 = states;
                        let steps0 = steps;
                        states = states.push(self@);
                        steps = steps.push(view);
                        assert(steps.drop_last() =~= steps0);
                        assert forall|k: int| 0 <= k < steps.len() implies (
                        #[trigger] states[k]).service_stepped(
                            *app,
                            current_time,
                            states[k + 1],
                            steps[k],
                        ) by {
                            if k < steps0.len() {
                                assert(states0[k].service_stepped(
                                    *app,
                                    current_time,
                                    states0[k + 1],
                                    steps0[k],
                                ));
                            }
                        }
                    }
                    if let Some(packet) = packet {
                        let ghost packets0 = outgoing_views(packets@);
                        packets.push(packet);
                        assert(outgoing_views(packets@) =~= packets0.push(packet@));
                    }
                },
            }
        }
        let ghost last = self@;
        self.0.unassociated_defrag_cache.check_for_expiry(current_time);
        self.0.unassociated_handshake_states.service(current_time);
        proof {
            assert(self@ == last.cleaned(current_time));
            lemma_cleaned_wf(last, current_time);
        }
        let wait = self.time_to_service(settings.fragment_assembly_timeout, current_time);
        (wait, packets)
    }
}

} // verus!
