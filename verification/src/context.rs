//! Contexts, which own the sessions of an application and the packets that belong to none yet.

pub mod close;
pub mod delivery;
pub mod open;
pub mod receive;
pub mod routing;
pub mod run;
pub mod send;
pub mod service;
pub mod silence;
pub mod upkeep;

use rand_core::OsRng;
use vstd::prelude::*;

use crate::application::ApplicationLayer;
use crate::challenge::ChallengeContext;
use crate::expiry::{alive, law_alive_entries};
use crate::frag_cache::{cache_sound, FragEntryView, UnassociatedFragCache};
use crate::handshake_cache::{
    handshake_from, handshakes_sound, lemma_handshake_from, Handshake, HandshakeView,
    UnassociatedHandshakeCache,
};
use crate::random::random_u64;
use crate::session::{Session, SessionView};
use crate::session_map::{kids_mapped, kids_unmapped, SessionMap};
use crate::session_queue::{lemma_unscheduled, rescheduled, unscheduled, SessionQueue};
use crate::zeta::ZetaView;

verus! {

/// What a context holds.
pub struct ContextInner<App: ApplicationLayer> {
    pub rng: OsRng,
    pub s_secret: App::KeyPair,
    /// The sessions, in the order in which they were made. The place of one that has expired
    /// stays empty.
    pub sessions: Vec<Option<Session<App>>>,
    pub session_queue: SessionQueue,
    pub session_map: SessionMap,
    pub unassociated_defrag_cache: UnassociatedFragCache,
    pub unassociated_handshake_states: UnassociatedHandshakeCache<App>,
    pub challenge: ChallengeContext,
}

/// Session context for local application.
///
/// Each application using ZSSP must create an instance of this to own sessions and
/// defragment incoming packets that are not yet associated with a session.
pub struct Context<App: ApplicationLayer>(pub ContextInner<App>);

/// What a context holds.
pub struct ContextView<App: ApplicationLayer> {
    pub s_secret: App::KeyPair,
    pub sessions: Seq<Option<SessionView<App>>>,
    pub queue: Seq<(i64, usize)>,
    pub map: Map<u32, usize>,
    pub fragments: Seq<FragEntryView>,
    pub handshakes: Seq<HandshakeView<App>>,
    pub salt: Seq<u8>,
}

/// What a place for a session holds.
pub open spec fn session_view<App: ApplicationLayer>(s: Option<Session<App>>) -> Option<
    SessionView<App>,
> {
    match s {
        Some(s) => Some(s@),
        None => None,
    }
}

/// What several places for sessions hold.
pub open spec fn session_views<App: ApplicationLayer>(s: Seq<Option<Session<App>>>) -> Seq<
    Option<SessionView<App>>,
> {
    Seq::new(s.len(), |i: int| session_view(s[i]))
}

impl<App: ApplicationLayer> View for Context<App> {
    type V = ContextView<App>;

    open spec fn view(&self) -> ContextView<App> {
        ContextView {
            s_secret: self.0.s_secret,
            sessions: session_views(self.0.sessions@),
            queue: self.0.session_queue@,
            map: self.0.session_map@,
            fragments: self.0.unassociated_defrag_cache@,
            handshakes: self.0.unassociated_handshake_states@,
            salt: self.0.challenge@,
        }
    }
}

/// No two handshakes have the same id.
pub open spec fn handshakes_distinct<App: ApplicationLayer>(h: Seq<HandshakeView<App>>) -> bool {
    forall|i: int, j: int|
        0 <= i < j < h.len() ==> (#[trigger] h[i]).b2.kid_recv != (#[trigger] h[j]).b2.kid_recv
}

impl<App: ApplicationLayer> ContextView<App> {
    /// The id `kid` is taken by a session or by a handshake.
    pub open spec fn in_use(self, kid: u32) -> bool {
        self.map.contains_key(kid) || handshake_from(self.handshakes, kid, 0) is Some
    }

    /// There is an id that is not taken.
    pub open spec fn has_room(self) -> bool {
        exists|kid: u32| kid != 0 && !#[trigger] self.in_use(kid)
    }

    /// The session at place `i`, where there is one.
    pub open spec fn session(self, i: int) -> Option<SessionView<App>> {
        if 0 <= i < self.sessions.len() {
            self.sessions[i]
        } else {
            None
        }
    }

    /// The place of the session that receives under the id `kid`, where there is one.
    pub open spec fn session_of(self, kid: u32) -> Option<usize> {
        if self.map.contains_key(kid) && self.session(self.map[kid] as int) is Some {
            Some(self.map[kid])
        } else {
            None
        }
    }

    /// The session at place `i` is in the queue.
    pub open spec fn scheduled(self, i: int) -> bool {
        exists|k: int| 0 <= k < self.queue.len() && (#[trigger] self.queue[k]).1 == i
    }

    /// What holds of a context in every state that it can come to: its parts are well formed;
    /// every session can be found by each id that it receives under, and by no id that a
    /// handshake has; every session is in the queue; no two handshakes have the same id.
    pub open spec fn wf(self) -> bool {
        &&& forall|i: int|
            0 <= i < self.sessions.len() ==> ((#[trigger] self.sessions[i]) matches Some(s)
                ==> s.wf() && self.registered(i, s.zeta) && self.scheduled(i))
        &&& forall|kid: u32|
            self.map.contains_key(kid) ==> (#[trigger] self.map[kid]) < self.sessions.len()
        &&& forall|k: int|
            0 <= k < self.queue.len() ==> (#[trigger] self.queue[k]).1 < self.sessions.len()
        &&& handshakes_sound(self.handshakes)
        &&& handshakes_distinct(self.handshakes)
        &&& forall|j: int|
            0 <= j < self.handshakes.len() ==> !self.map.contains_key(
                (#[trigger] self.handshakes[j]).b2.kid_recv,
            )
        &&& cache_sound(self.fragments)
    }

    /// Each id that a session receives under leads to place `i`.
    pub open spec fn registered(self, i: int, zeta: ZetaView<App>) -> bool {
        forall|is_next: bool|
            ((#[trigger] zeta.key(is_next)).recv.kid matches Some(kid) ==> self.map.contains_key(
                kid,
            ) && self.map[kid] == i)
    }

    /// The context with another state of the session at place `i`, which neither its ids nor its
    /// timers depend on.
    pub open spec fn with_session(self, i: usize, session: SessionView<App>) -> Self {
        ContextView { sessions: self.sessions.update(i as int, Some(session)), ..self }
    }

    /// The context with another state of the session at place `i`: it is found by its ids, and
    /// looked at when its next timer runs out.
    pub open spec fn refreshed(self, i: usize, session: SessionView<App>) -> Self {
        let before = self.sessions[i as int]->0;
        ContextView {
            sessions: self.sessions.update(i as int, Some(session)),
            map: kids_mapped(kids_unmapped(self.map, before.zeta), session.zeta, i),
            queue: rescheduled(self.queue, i, session.zeta.next_timer()),
            ..self
        }
    }

    /// The context with another state of the session at place `i`, which its ids do not depend on:
    /// it is looked at when its next timer runs out.
    pub open spec fn retimed(self, i: usize, session: SessionView<App>) -> Self {
        ContextView {
            queue: rescheduled(self.queue, i, session.zeta.next_timer()),
            ..self.with_session(i, session)
        }
    }

    /// The context without the session at place `i`.
    pub open spec fn without_session(self, i: usize) -> Self {
        let before = self.sessions[i as int]->0;
        ContextView {
            sessions: self.sessions.update(i as int, None),
            map: kids_unmapped(self.map, before.zeta),
            queue: unscheduled(self.queue, i),
            ..self
        }
    }

    /// The context with a new session.
    pub open spec fn with_new_session(self, session: SessionView<App>) -> Self {
        let i = self.sessions.len() as usize;
        ContextView {
            sessions: self.sessions.push(Some(session)),
            map: kids_mapped(self.map, session.zeta, i),
            queue: self.queue.push((session.zeta.next_timer(), i)),
            ..self
        }
    }

    /// The context with other handshakes.
    pub open spec fn with_handshakes(self, handshakes: Seq<HandshakeView<App>>) -> Self {
        ContextView { handshakes, ..self }
    }

    /// The context with other packets that are being put together.
    pub open spec fn with_fragments(self, fragments: Seq<FragEntryView>) -> Self {
        ContextView { fragments, ..self }
    }
}

/// The ids of a session are in the map of the sessions.
proof fn lemma_kids_mapped<App: ApplicationLayer>(
    map: Map<u32, usize>,
    zeta: ZetaView<App>,
    i: usize,
)
    ensures
        forall|is_next: bool|
            ((#[trigger] zeta.key(is_next)).recv.kid matches Some(kid) ==> kids_mapped(
                map,
                zeta,
                i,
            ).contains_key(kid) && kids_mapped(map, zeta, i)[kid] == i),
        forall|kid: u32|
            Some(kid) != zeta.key(true).recv.kid && Some(kid) != zeta.key(false).recv.kid ==> {
                &&& (#[trigger] kids_mapped(map, zeta, i).contains_key(kid) <==> map.contains_key(
                    kid,
                ))
                &&& kids_mapped(map, zeta, i)[kid] == map[kid]
            },
{
}

/// A session that changes its ids as sessions do leaves the context well formed.
pub proof fn lemma_refreshed_wf<App: ApplicationLayer>(
    context: ContextView<App>,
    i: usize,
    session: SessionView<App>,
    kid_new: u32,
)
    requires
        context.wf(),
        context.session(i as int) matches Some(before) && before.keeps_kids(session, kid_new),
        session.wf(),
        !context.in_use(kid_new),
    ensures
        context.refreshed(i, session).wf(),
{
    let before = context.sessions[i as int]->0;
    let after = context.refreshed(i, session);
    let map0 = kids_unmapped(context.map, before.zeta);
    lemma_kids_mapped(map0, session.zeta, i);
    lemma_handshake_from(context.handshakes, kid_new, 0);
    assert(context.registered(i as int, before.zeta));
    let kid1 = before.zeta.key(true).recv.kid;
    let kid2 = before.zeta.key(false).recv.kid;
    assert(session.zeta.key(true) == session.zeta.key(true));
    assert(session.zeta.key(false) == session.zeta.key(false));
    assert forall|kid: u32| after.map.contains_key(kid) implies (#[trigger] after.map[kid])
        < after.sessions.len() by {
        assert(context.map.contains_key(kid) ==> context.map[kid] < context.sessions.len());
    }
    assert forall|k: int| 0 <= k < after.queue.len() implies (#[trigger] after.queue[k]).1
        < after.sessions.len() by {
        assert(context.queue[k].1 < context.sessions.len());
    }
    assert forall|j: int| 0 <= j < after.sessions.len() implies ((
    #[trigger] after.sessions[j]) matches Some(s) ==> s.wf() && after.registered(j, s.zeta)
        && after.scheduled(j)) by {
        if after.sessions[j] is Some {
            let s = after.sessions[j]->0;
            assert(context.sessions[j] is Some);
            assert(context.scheduled(j));
            let k = choose|k: int| 0 <= k < context.queue.len() && context.queue[k].1 == j;
            assert(after.queue[k].1 == j);
            if j != i {
                assert(context.registered(j, s.zeta));
                assert forall|is_next: bool|
                    ((#[trigger] s.zeta.key(is_next)).recv.kid matches Some(
                        kid,
                    ) ==> after.map.contains_key(kid) && after.map[kid] == j) by {
                    if let Some(kid) = s.zeta.key(is_next).recv.kid {
                        assert(context.map.contains_key(kid) && context.map[kid] == j);
                        assert(Some(kid) != kid1 && Some(kid) != kid2);
                        assert(kid != kid_new);
                    }
                }
            }
        }
    }
    assert forall|j: int| 0 <= j < after.handshakes.len() implies !after.map.contains_key(
        (#[trigger] after.handshakes[j]).b2.kid_recv,
    ) by {
        let kid = context.handshakes[j].b2.kid_recv;
        assert(!context.map.contains_key(kid));
        assert(kid != kid_new);
    }
}

/// A context that loses a session stays well formed.
pub proof fn lemma_without_session_wf<App: ApplicationLayer>(context: ContextView<App>, i: usize)
    requires
        context.wf(),
        context.session(i as int) is Some,
    ensures
        context.without_session(i).wf(),
{
    let before = context.sessions[i as int]->0;
    let after = context.without_session(i);
    assert(context.registered(i as int, before.zeta));
    lemma_unscheduled(context.queue, i);
    assert forall|kid: u32| after.map.contains_key(kid) implies (#[trigger] after.map[kid])
        < after.sessions.len() by {
        assert(context.map.contains_key(kid) && context.map[kid] < context.sessions.len());
    }
    assert forall|k: int| 0 <= k < after.queue.len() implies (#[trigger] after.queue[k]).1
        < after.sessions.len() by {
        let e = after.queue[k];
        assert(context.queue.contains(e));
    }
    assert forall|j: int| 0 <= j < after.sessions.len() implies ((
    #[trigger] after.sessions[j]) matches Some(s) ==> s.wf() && after.registered(j, s.zeta)
        && after.scheduled(j)) by {
        if after.sessions[j] is Some {
            let s = after.sessions[j]->0;
            assert(context.sessions[j] is Some);
            assert(context.registered(j, s.zeta));
            assert(context.scheduled(j));
            let k = choose|k: int| 0 <= k < context.queue.len() && context.queue[k].1 == j;
            let e = context.queue[k];
            assert(context.queue.contains(e));
            assert(after.queue.contains(e));
            let k2 = choose|k2: int| 0 <= k2 < after.queue.len() && after.queue[k2] == e;
            assert(after.queue[k2].1 == j);
            assert forall|is_next: bool|
                ((#[trigger] s.zeta.key(is_next)).recv.kid matches Some(
                    kid,
                ) ==> after.map.contains_key(kid) && after.map[kid] == j) by {
                if let Some(kid) = s.zeta.key(is_next).recv.kid {
                    assert(context.map.contains_key(kid) && context.map[kid] == j);
                    assert(before.zeta.key(true) == before.zeta.key(true));
                    assert(before.zeta.key(false) == before.zeta.key(false));
                }
            }
        }
    }
}

/// A context that gains a session whose ids are not in use stays well formed.
pub proof fn lemma_new_session_wf<App: ApplicationLayer>(
    context: ContextView<App>,
    session: SessionView<App>,
)
    requires
        context.wf(),
        session.wf(),
        context.sessions.len() <= usize::MAX,
        forall|is_next: bool|
            ((#[trigger] session.zeta.key(is_next)).recv.kid matches Some(kid)
                ==> !context.in_use(kid)),
    ensures
        context.with_new_session(session).wf(),
{
    let i = context.sessions.len() as usize;
    let after = context.with_new_session(session);
    lemma_kids_mapped(context.map, session.zeta, i);
    assert(session.zeta.key(true) == session.zeta.key(true));
    assert(session.zeta.key(false) == session.zeta.key(false));
    assert forall|kid: u32| after.map.contains_key(kid) implies (#[trigger] after.map[kid])
        < after.sessions.len() by {
        assert(context.map.contains_key(kid) ==> context.map[kid] < context.sessions.len());
    }
    assert forall|k: int| 0 <= k < after.queue.len() implies (#[trigger] after.queue[k]).1
        < after.sessions.len() by {
        if k < context.queue.len() {
            assert(context.queue[k].1 < context.sessions.len());
        }
    }
    assert forall|j: int| 0 <= j < after.sessions.len() implies ((
    #[trigger] after.sessions[j]) matches Some(s) ==> s.wf() && after.registered(j, s.zeta)
        && after.scheduled(j)) by {
        if after.sessions[j] is Some {
            let s = after.sessions[j]->0;
            if j < i {
                assert(context.sessions[j] is Some);
                assert(context.registered(j, s.zeta));
                assert(context.scheduled(j));
                let k = choose|k: int| 0 <= k < context.queue.len() && context.queue[k].1 == j;
                assert(after.queue[k].1 == j);
                assert forall|is_next: bool|
                    ((#[trigger] s.zeta.key(is_next)).recv.kid matches Some(
                        kid,
                    ) ==> after.map.contains_key(kid) && after.map[kid] == j) by {
                    if let Some(kid) = s.zeta.key(is_next).recv.kid {
                        assert(context.map.contains_key(kid) && context.map[kid] == j);
                    }
                }
            } else {
                assert(after.queue[context.queue.len() as int].1 == j);
            }
        }
    }
    assert forall|j: int| 0 <= j < after.handshakes.len() implies !after.map.contains_key(
        (#[trigger] after.handshakes[j]).b2.kid_recv,
    ) by {
        let kid = context.handshakes[j].b2.kid_recv;
        assert(!context.map.contains_key(kid));
        lemma_handshake_from(context.handshakes, kid, 0);
        assert(context.in_use(kid));
    }
}

/// A session with the same ids in the same place leaves the context well formed, whether or not
/// its timers have changed.
pub proof fn lemma_same_ids_wf<App: ApplicationLayer>(
    context: ContextView<App>,
    i: usize,
    session: SessionView<App>,
)
    requires
        context.wf(),
        context.session(i as int) matches Some(before) && forall|is_next: bool|
            before.zeta.key(is_next).recv.kid == (#[trigger] session.zeta.key(is_next)).recv.kid,
        session.wf(),
    ensures
        context.with_session(i, session).wf(),
        context.retimed(i, session).wf(),
{
    let after = context.with_session(i, session);
    let retimed = context.retimed(i, session);
    let before = context.sessions[i as int]->0;
    assert(context.registered(i as int, before.zeta));
    assert forall|is_next: bool|
        ((#[trigger] session.zeta.key(is_next)).recv.kid matches Some(
            kid,
        ) ==> context.map.contains_key(kid) && context.map[kid] == i) by {
        assert(before.zeta.key(is_next).recv.kid == session.zeta.key(is_next).recv.kid);
    }
    assert forall|j: int| 0 <= j < after.sessions.len() implies ((
    #[trigger] after.sessions[j]) matches Some(s) ==> s.wf() && after.registered(j, s.zeta)
        && after.scheduled(j) && retimed.scheduled(j)) by {
        if after.sessions[j] is Some {
            let s = after.sessions[j]->0;
            assert(context.sessions[j] is Some);
            assert(j != i ==> context.registered(j, s.zeta));
            assert(context.scheduled(j));
            let k = choose|k: int| 0 <= k < context.queue.len() && context.queue[k].1 == j;
            assert(after.queue[k].1 == j);
            assert(retimed.queue[k].1 == j);
        }
    }
    assert forall|j: int| 0 <= j < retimed.sessions.len() implies ((
    #[trigger] retimed.sessions[j]) matches Some(s) ==> s.wf() && retimed.registered(j, s.zeta)
        && retimed.scheduled(j)) by {
        assert(after.sessions[j] == retimed.sessions[j]);
    }
    assert forall|k: int| 0 <= k < retimed.queue.len() implies (#[trigger] retimed.queue[k]).1
        < retimed.sessions.len() by {
        assert(context.queue[k].1 < context.sessions.len());
    }
}

/// What is left of the handshakes when some are dropped have different ids.
pub proof fn lemma_alive_distinct<App: ApplicationLayer>(
    h: Seq<HandshakeView<App>>,
    current_time: i64,
)
    requires
        handshakes_distinct(h),
    ensures
        handshakes_distinct(alive::<Handshake<App>>(h, current_time)),
    decreases h.len(),
{
    if h.len() > 0 {
        let rest = alive::<Handshake<App>>(h.drop_last(), current_time);
        let left = alive::<Handshake<App>>(h, current_time);
        assert(handshakes_distinct(h.drop_last())) by {
            assert forall|i: int, j: int| 0 <= i < j < h.len() - 1 implies (
            #[trigger] h.drop_last()[i]).b2.kid_recv != (
            #[trigger] h.drop_last()[j]).b2.kid_recv by {
                assert(h[i].b2.kid_recv != h[j].b2.kid_recv);
            }
        }
        lemma_alive_distinct(h.drop_last(), current_time);
        assert forall|i: int, j: int| 0 <= i < j < left.len() implies (
        #[trigger] left[i]).b2.kid_recv != (#[trigger] left[j]).b2.kid_recv by {
            if j < rest.len() {
                assert(rest[i].b2.kid_recv != rest[j].b2.kid_recv);
            } else {
                law_alive_entries::<Handshake<App>>(h.drop_last(), current_time, i);
                let k = choose|k: int| 0 <= k < h.drop_last().len() && h.drop_last()[k] == left[i];
                assert(h[k].b2.kid_recv != h[h.len() - 1].b2.kid_recv);
            }
        }
    }
}

impl<App: ApplicationLayer> Context<App> {
    /// Create a new session context.
    pub fn new(static_secret_key: App::KeyPair, rng: OsRng) -> (r: Self)
        ensures
            r@.s_secret == static_secret_key,
            r@.sessions.len() == 0,
            r@.queue.len() == 0,
            r@.map == Map::<u32, usize>::empty(),
            r@.fragments.len() == 0,
            r@.handshakes.len() == 0,
            r@.wf(),
            r@.has_room(),
    {
        let mut rng = rng;
        let challenge = ChallengeContext::new(&mut rng);
        let r = Context(
            ContextInner {
                rng,
                s_secret: static_secret_key,
                sessions: Vec::new(),
                session_queue: SessionQueue::new(),
                session_map: SessionMap::new(),
                unassociated_defrag_cache: UnassociatedFragCache::new(),
                unassociated_handshake_states: UnassociatedHandshakeCache::new(),
                challenge,
            },
        );
        assert(!r@.in_use(1));
        r
    }

    /// Says whether the id `kid` is taken.
    fn is_in_use(&self, kid: u32) -> (r: bool)
        ensures
            r == self@.in_use(kid),
    {
        self.0.session_map.get(kid).is_some() || self.0.unassociated_handshake_states.find(
            kid,
        ).is_some()
    }

    /// An id that is not taken, the first one from `start` on; `None` where there is none.
    pub fn free_kid(&self, start: u32) -> (r: Option<u32>)
        requires
            start != 0,
        ensures
            r matches Some(kid) ==> kid != 0 && !self@.in_use(kid),
            r is None <==> !self@.has_room(),
    {
        let mut kid: u32 = start;
        while kid < u32::MAX
            invariant
                start != 0,
                start <= kid <= u32::MAX,
                forall|k: u32| start <= k < kid ==> #[trigger] self@.in_use(k),
            decreases u32::MAX - kid,
        {
            if !self.is_in_use(kid) {
                return Some(kid);
            }
            kid += 1;
        }
        if !self.is_in_use(kid) {
            return Some(kid);
        }
        let mut kid: u32 = 1;
        while kid < start
            invariant
                start != 0,
                1 <= kid <= start,
                forall|k: u32| start <= k <= u32::MAX ==> #[trigger] self@.in_use(k),
                forall|k: u32| 1 <= k < kid ==> #[trigger] self@.in_use(k),
            decreases start - kid,
        {
            if !self.is_in_use(kid) {
                return Some(kid);
            }
            kid += 1;
        }
        None
    }

    /// Says whether there is an id that is not taken.
    pub fn has_room(&self) -> (r: bool)
        ensures
            r == self@.has_room(),
    {
        self.free_kid(1).is_some()
    }

    /// Draws an id that is not taken.
    pub(crate) fn draw_kid(&mut self) -> (r: u32)
        requires
            old(self)@.has_room(),
        ensures
            final(self)@ == old(self)@,
            r != 0,
            !old(self)@.in_use(r),
    {
        let draw = random_u64(&mut self.0.rng);
        let start: u32 = (draw % 0xffff_ffff) as u32 + 1;
        self.free_kid(start).unwrap()
    }
}

} // verus!
