//! Opening sessions.

use vstd::prelude::*;

use crate::application::ApplicationLayer;
use crate::bytes::{append, part};
use crate::context::{lemma_new_session_wf, Context, ContextView};
use crate::outgoing::{Outgoing, OutgoingView};
use crate::proto::{HANDSHAKE_HELLO_CHALLENGE_MIN_SIZE, IDENTITY_MAX_SIZE};
use crate::result::{OpenError, SessionHandle};
use crate::session::{Session, SessionView};
use crate::timers::hello_packet;
use crate::zeta::hello::{offered_fingerprints, session_opened};
use crate::zeta::{Packet, Zeta};

verus! {

impl<App: ApplicationLayer> ContextView<App> {
    /// `after` and `r` may be what comes of opening a session with the holder of `s_remote`, and
    /// `app_after` what becomes of the application. It is asked nothing where the identity is too
    /// large.
    pub open spec fn opened(
        self,
        app: App,
        s_remote: App::PublicKey,
        session_data: App::Data,
        identity: Seq<u8>,
        current_time: i64,
        after: Self,
        app_after: App,
        r: Result<(SessionHandle, Outgoing), OpenError>,
    ) -> bool {
        if identity.len() > IDENTITY_MAX_SIZE {
            after == self && app_after == app && r matches Err(OpenError::IdentityTooLarge)
        } else {
            exists|kid: u32, opened: Result<(Zeta<App>, Packet), OpenError>|
                {
                    &&& kid != 0
                    &&& !self.in_use(kid)
                    &&& #[trigger] session_opened(
                        app,
                        kid,
                        s_remote,
                        session_data,
                        current_time,
                        app_after,
                        opened,
                    )
                    &&& match opened {
                        Err(e) => after == self && r == Err::<
                            (SessionHandle, Outgoing),
                            OpenError,
                        >(e),
                        Ok((zeta, packet)) => {
                            let session = SessionView::fresh(zeta@, identity);
                            &&& after == self.with_new_session(session)
                            &&& r matches Ok((handle, outgoing))
                            &&& handle.index == self.sessions.len()
                            &&& outgoing@ == (OutgoingView {
                                to: Some(handle),
                                packet: hello_packet(packet@.payload, session.challenge),
                                hk_send: None,
                            })
                        },
                    }
                }
        }
    }
}

impl<App: ApplicationLayer> Context<App> {
    /// Takes in a new session whose ids are not in use: its place.
    pub(crate) fn add_session(&mut self, session: Session<App>) -> (r: usize)
        requires
            old(self)@.wf(),
            session@.wf(),
            forall|is_next: bool|
                ((#[trigger] session@.zeta.key(is_next)).recv.kid matches Some(kid)
                    ==> !old(self)@.in_use(kid)),
        ensures
            final(self)@ == old(self)@.with_new_session(session@),
            r == old(self)@.sessions.len(),
            final(self)@.wf(),
    {
        let ghost before = self@;
        let i: usize = self.0.sessions.len();
        let timer = session.zeta.next_timer();
        self.0.session_map.add_kids(&session.zeta, i);
        self.0.session_queue.insert(i, timer);
        let ghost view = session@;
        self.0.sessions.push(Some(session));
        assert(self@.sessions =~= before.sessions.push(Some(view)));
        proof {
            lemma_new_session_wf(before, view);
        }
        i
    }

    /// Create a new session and send initial packet(s) to other side.
    ///
    /// This will return `OpenError::IdentityTooLarge` if the identity exceeds
    /// `IDENTITY_MAX_SIZE`.
    ///
    /// * `app` - Application layer instance
    /// * `static_remote_key` - Remote side's static public NIST P-384 key
    /// * `session_data` - Arbitrary data meaningful to the application to go with the session
    /// * `identity` - Payload to be sent to Bob that contains the information necessary
    ///   for the upper protocol to authenticate and approve of Alice's identity.
    /// * `current_time` - The time in milliseconds
    ///
    /// What comes back is the session, and the packet to send to the remote being contacted.
    pub fn open(
        &mut self,
        app: &mut App,
        static_remote_key: App::PublicKey,
        session_data: App::Data,
        identity: &[u8],
        current_time: i64,
    ) -> (r: Result<(SessionHandle, Outgoing), OpenError>)
        requires
            old(self)@.wf(),
            old(self)@.has_room(),
            old(app).settings_spec().valid(),
            old(app).settings_spec().reckons_from(current_time),
        ensures
            old(self)@.opened(
                *old(app),
                static_remote_key,
                session_data,
                identity@,
                current_time,
                final(self)@,
                *final(app),
                r,
            ),
            final(app).settings_spec() == old(app).settings_spec(),
            final(self)@.wf(),
            r matches Ok((handle, outgoing)) ==> outgoing@.packet.measured()
                && outgoing@.packet.payload.len() == HANDSHAKE_HELLO_CHALLENGE_MIN_SIZE
                + offered_fingerprints(
                (final(self)@.sessions[handle.index as int]->0).zeta.ratchet_states,
            ).len(),
    {
        if identity.len() > IDENTITY_MAX_SIZE {
            return Err(OpenError::IdentityTooLarge);
        }
        let ghost before = self@;
        let kid = self.draw_kid();
        // Process zeta layer.
        let opened = Zeta::trans_null_to_a1(
            app,
            &mut self.0.rng,
            kid,
            static_remote_key,
            session_data,
            current_time,
        );
        assert(self@ == before);
        assert(session_opened(
            *old(app),
            kid,
            static_remote_key,
            session_data,
            current_time,
            *app,
            opened,
        ));
        match opened {
            Err(e) => Err(e),
            Ok((zeta, packet)) => {
                let ghost view = packet@;
                let Packet(_, n, x1) = packet;
                let identity_copy = part(identity, 0, identity.len());
                assert(identity_copy@ =~= identity@);
                let session = Session::new(zeta, identity_copy);
                let ghost fresh = session@;
                let mut payload = x1;
                append(&mut payload, session.challenge.as_slice());
                assert(payload@ == view.payload + fresh.challenge);
                let i = self.add_session(session);
                let handle = SessionHandle { index: i };
                let outgoing = Outgoing {
                    to: Some(handle),
                    packet: Packet(0, n, payload),
                    hk_send: None,
                };
                assert(outgoing@.packet == hello_packet(view.payload, fresh.challenge));
                Ok((handle, outgoing))
            },
        }
    }
}

} // verus!
