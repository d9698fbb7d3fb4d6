//! Sending data over sessions.

use vstd::prelude::*;

use crate::application::{ApplicationLayer, Settings};
use crate::bytes::{contents, part};
use crate::context::{
    lemma_same_ids_wf, lemma_without_session_wf, session_view, Context, ContextView,
};
use crate::outgoing::{is_wire, Outgoing};
use crate::proto::{AES_GCM_TAG_SIZE, HEADER_SIZE, MAX_FRAGMENTS, MIN_TRANSPORT_MTU};
use crate::result::{SendError, SessionHandle};
use crate::session::Session;
use crate::wire::{count_fragments, fragment_count};
use crate::zeta::ZsspAutomata;

verus! {

/// Why data of this size cannot be sent over a path with this MTU, if it cannot.
pub open spec fn send_refused(mtu: usize, len: nat) -> Option<SendError> {
    if mtu < MIN_TRANSPORT_MTU {
        Some(SendError::MtuTooSmall)
    } else if len + AES_GCM_TAG_SIZE > usize::MAX || fragment_count(
        (len + AES_GCM_TAG_SIZE) as int,
        mtu - HEADER_SIZE,
    ) > MAX_FRAGMENTS {
        Some(SendError::DataTooLarge)
    } else {
        None
    }
}

impl<App: ApplicationLayer> ContextView<App> {
    /// `after` and `r` are what comes of sending `data` over a session. One whose key is used up by
    /// it expires, and is no longer owned by the context.
    pub open spec fn sent(
        self,
        settings: Settings,
        session: SessionHandle,
        mtu: usize,
        data: Seq<u8>,
        after: Self,
        r: Result<Vec<Vec<u8>>, SendError>,
    ) -> bool {
        match (send_refused(mtu, data.len()), self.session(session.index as int)) {
            (Some(e), _) => after == self && r == Err::<Vec<Vec<u8>>, SendError>(e),
            (None, None) => after == self && r == Err::<Vec<Vec<u8>>, SendError>(
                SendError::SessionExpired,
            ),
            (None, Some(s)) => if s.zeta.beta is Null {
                after == self && r == Err::<Vec<Vec<u8>>, SendError>(SendError::SessionExpired)
            } else if !s.zeta.can_send() {
                after == self && r == Err::<Vec<Vec<u8>>, SendError>(
                    SendError::SessionNotEstablished,
                )
            } else if s.zeta.send_counter == u64::MAX {
                &&& after == self.without_session(session.index)
                &&& r == Err::<Vec<Vec<u8>>, SendError>(SendError::SessionExpired)
            } else {
                &&& after == if s.zeta.used(settings).beta is Null {
                    self.without_session(session.index)
                } else {
                    self.retimed(session.index, s.with_zeta(s.zeta.used(settings)))
                }
                &&& r matches Ok(fragments)
                &&& is_wire::<App>(
                    contents(fragments@),
                    s.zeta.data_packet(data),
                    Some(s.zeta.hk_send),
                    mtu,
                )
            },
        }
    }
}

impl<App: ApplicationLayer> Context<App> {
    /// Takes the session at place `i` out of its place, into which another state of it has to be
    /// put.
    pub(crate) fn take_session(&mut self, i: usize) -> (r: Session<App>)
        requires
            old(self)@.session(i as int) is Some,
        ensures
            Some(r@) == old(self)@.session(i as int),
            final(self)@ == (ContextView {
                sessions: old(self)@.sessions.update(i as int, None),
                ..old(self)@
            }),
    {
        let ghost before = self@;
        assert(before.sessions[i as int] == session_view(self.0.sessions@[i as int]));
        let session = self.0.sessions[i].take().unwrap();
        assert(self@.sessions =~= before.sessions.update(i as int, None));
        session
    }

    /// Puts a session into its place.
    pub(crate) fn put_session(&mut self, i: usize, session: Session<App>)
        requires
            i < old(self)@.sessions.len(),
        ensures
            final(self)@ == old(self)@.with_session(i, session@),
    {
        let ghost before = self@;
        let ghost view = session@;
        self.0.sessions.set(i, Some(session));
        assert(self@.sessions =~= before.sessions.update(i as int, Some(view)));
    }

    /// Send data over the session.
    ///
    /// * `app` - Interface to application using ZSSP
    /// * `session` - The session to send to
    /// * `mtu` - The MTU of the path to the remote peer
    /// * `data` - Data to send
    ///
    /// What comes back are the physical packets to send, in order.
    pub fn send(
        &mut self,
        app: &App,
        session: SessionHandle,
        mtu: usize,
        data: &[u8],
    ) -> (r: Result<Vec<Vec<u8>>, SendError>)
        requires
            old(self)@.wf(),
        ensures
            old(self)@.sent(app.settings_spec(), session, mtu, data@, final(self)@, r),
            final(self)@.wf(),
            r matches Ok(fragments) ==> {
                &&& fragments@.len() == fragment_count(
                    data@.len() + AES_GCM_TAG_SIZE,
                    mtu - HEADER_SIZE,
                )
                &&& fragments@.len() <= MAX_FRAGMENTS
                &&& data@.len() + AES_GCM_TAG_SIZE + HEADER_SIZE <= isize::MAX ==> forall|k: int|
                    0 <= k < fragments@.len() ==> (#[trigger] fragments@[k])@.len() <= mtu
            },
    {
        if mtu < MIN_TRANSPORT_MTU {
            return Err(SendError::MtuTooSmall);
        }
        let len: usize = data.len();
        if len > usize::MAX - AES_GCM_TAG_SIZE || count_fragments(
            len + AES_GCM_TAG_SIZE,
            mtu - HEADER_SIZE,
        ) > MAX_FRAGMENTS {
            return Err(SendError::DataTooLarge);
        }
        let i: usize = session.index;
        if i >= self.0.sessions.len() {
            return Err(SendError::SessionExpired);
        }
        assert(self@.sessions[i as int] == session_view(self.0.sessions@[i as int]));
        match &self.0.sessions[i] {
            None => return Err(SendError::SessionExpired),
            Some(s) => {
                if s.zeta.send_counter == u64::MAX && s.zeta.is_established() {
                    self.close(session);
                    return Err(SendError::SessionExpired);
                }
            },
        }
        let ghost before = self@;
        let mut s = self.take_session(i);
        let ghost was = s@;
        let settings = app.settings();
        let payload = part(data, 0, data.len());
        assert(payload@ =~= data@);
        match s.zeta.send(&settings, payload) {
            Err(e) => {
                assert(s@ == was);
                self.put_session(i, s);
                assert(self@.sessions =~= before.sessions);
                Err(e)
            },
            Ok(packet) => {
                let hk_send = Some(s.zeta.hk_send.clone());
                let outgoing = Outgoing { to: Some(session), packet, hk_send };
                let fragments = outgoing.fragments::<App>(mtu);
                let ghost now = s@;
                assert(now == was.with_zeta(was.zeta.used(app.settings_spec())));
                let expired = match &s.zeta.beta {
                    ZsspAutomata::Null => true,
                    _ => false,
                };
                if expired {
                    self.0.session_map.remove_kids(&s.zeta);
                    self.0.session_queue.remove(i);
                    proof {
                        lemma_without_session_wf(before, i);
                    }
                } else {
                    let timer = s.zeta.next_timer();
                    self.0.session_queue.change_priority(i, timer);
                    self.put_session(i, s);
                    assert(self@.sessions =~= before.retimed(i, now).sessions);
                    proof {
                        lemma_same_ids_wf(before, i, now);
                    }
                }
                proof {
                    let views = contents(fragments@);
                    assert forall|k: int|
                        0 <= k < fragments@.len() && data@.len() + AES_GCM_TAG_SIZE + HEADER_SIZE
                            <= isize::MAX implies (#[trigger] fragments@[k])@.len() <= mtu by {
                        assert(views[k].len() <= mtu);
                    }
                }
                Ok(fragments)
            },
        }
    }
}

} // verus!
