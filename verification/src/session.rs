//! Sessions as a context holds them: the state machine, the window of received counters, and the
//! packets that are being put together.

use rand_core::OsRng;
use vstd::prelude::*;

use crate::application::ApplicationLayer;
use crate::bytes::{contents, part};
use crate::fragged::{no_fragments, Fragged, FraggedView};
use crate::packet_buffer::{gather, gather_bounded, payloads};
use crate::proto::{
    AES_GCM_IV_SIZE, AES_GCM_TAG_SIZE, CHALLENGE_SIZE, COUNTER_WINDOW_MAX_OOO,
    COUNTER_WINDOW_MAX_SKIP_AHEAD, HANDSHAKE_COMPLETION_MAX_SIZE, HEADER_AUTH_END, HEADER_SIZE,
    PACKET_TYPE_ACK, PACKET_TYPE_DATA, PACKET_TYPE_HANDSHAKE_COMPLETION,
    PACKET_TYPE_HANDSHAKE_RESPONSE, PACKET_TYPE_KEY_CONFIRM, PACKET_TYPE_REKEY_COMPLETE,
    PACKET_TYPE_REKEY_INIT, PACKET_TYPE_SESSION_REJECTED, PACKET_TYPE_USES_COUNTER_FIRST,
    PACKET_TYPE_USES_COUNTER_LAST, SESSION_MAX_FRAGMENTS_OOO,
};
use crate::result::{
    error_of, fault, is_error_of, is_fault, FaultType, ReceiveError, SessionEvent, SessionHandle,
    ZetaError, FAULT_ACKNOWLEDGEMENT_AUTH, FAULT_ACKNOWLEDGEMENT_STAGE, FAULT_COMPLETION_REPEATED,
    FAULT_CONFIRMATION_AUTH, FAULT_CONFIRMATION_STAGE, FAULT_DATA_AUTH, FAULT_DATA_STAGE,
    FAULT_EXPIRED_COUNTER, FAULT_FRAGMENT_HEADER, FAULT_REJECTION_AUTH, FAULT_REJECTION_STAGE,
    FAULT_REKEY_ANSWER_AUTH, FAULT_REKEY_ANSWER_STAGE, FAULT_REKEY_AUTH, FAULT_REKEY_STAGE,
    FAULT_RESPONSE_AUTH, FAULT_RESPONSE_COUNTER, FAULT_RESPONSE_SEQUENCE, FAULT_RESPONSE_STAGE,
    FAULT_SESSION_PACKET_TYPE,
};
use crate::window::{window_after, window_takes, Window};
use crate::wire::{
    fragment_header, from_nonce, nonce_counter, nonce_type, parse_fragment_header, unprotect,
    unprotected,
};
use crate::zeta::completion::packet_view;
use crate::zeta::response::response_handled;
use crate::zeta::{Packet, Zeta, ZetaView, ZsspAutomata};

verus! {

/// A session of a context.
pub struct Session<App: ApplicationLayer> {
    pub zeta: Zeta<App>,
    pub window: Window,
    /// The packets that are being put together, by their counters.
    pub defrag: Vec<Fragged>,
    /// What an initiator shows the responder of itself.
    pub identity: Vec<u8>,
    /// The answer to the challenge of the responder.
    pub challenge: [u8; CHALLENGE_SIZE],
}

/// What a session of a context holds.
pub struct SessionView<App: ApplicationLayer> {
    pub zeta: ZetaView<App>,
    pub window: Seq<u64>,
    pub defrag: Seq<FraggedView>,
    pub identity: Seq<u8>,
    pub challenge: Seq<u8>,
}

/// What several packets that are being put together hold.
pub open spec fn defrag_views(defrag: Seq<Fragged>) -> Seq<FraggedView> {
    Seq::new(defrag.len(), |i: int| defrag[i]@)
}

impl<App: ApplicationLayer> View for Session<App> {
    type V = SessionView<App>;

    open spec fn view(&self) -> SessionView<App> {
        SessionView {
            zeta: self.zeta@,
            window: self.window@,
            defrag: defrag_views(self.defrag@),
            identity: self.identity@,
            challenge: self.challenge@,
        }
    }
}

/// The packet that fragments make up, where it is not too large. Data and packets of one fragment
/// are never too large.
pub open spec fn packet_of(packet_type: u8, fragments: Seq<Seq<u8>>, limit: int) -> Option<
    Seq<u8>,
> {
    if packet_type == PACKET_TYPE_DATA || fragments.len() <= 1 || payloads(fragments).len()
        <= limit {
        Some(payloads(fragments))
    } else {
        None
    }
}

/// The packet that fragments make up, where it is not too large.
pub fn whole_packet(packet_type: u8, fragments: &Vec<Vec<u8>>, limit: usize) -> (r: Option<
    Vec<u8>,
>)
    requires
        limit <= HANDSHAKE_COMPLETION_MAX_SIZE,
        forall|k: int| 0 <= k < fragments@.len() ==> (#[trigger] fragments@[k])@.len()
            >= HEADER_SIZE,
    ensures
        match packet_of(packet_type, contents(fragments@), limit as int) {
            None => r is None,
            Some(packet) => r matches Some(p) && p@ == packet,
        },
{
    if packet_type == PACKET_TYPE_DATA || fragments.len() <= 1 {
        Some(gather(fragments))
    } else {
        gather_bounded(fragments, limit)
    }
}

/// A packet that has come in full: its nonce, and its fragments.
pub struct Taken {
    pub nonce: [u8; AES_GCM_IV_SIZE],
    pub fragments: Vec<Vec<u8>>,
}

/// What came of a packet: what happened to the session, the packet to answer with, and the data
/// that was received.
pub struct Processed {
    pub event: SessionEvent,
    pub reply: Option<Packet>,
    pub data: Vec<u8>,
}

impl<App: ApplicationLayer> SessionView<App> {
    /// What holds of a session in every state that it can come to.
    pub open spec fn wf(self) -> bool {
        &&& self.zeta.wf()
        &&& self.window.len() == COUNTER_WINDOW_MAX_OOO
        &&& self.defrag.len() == SESSION_MAX_FRAGMENTS_OOO
        &&& forall|i: int| 0 <= i < self.defrag.len() ==> (#[trigger] self.defrag[i]).sound()
        &&& self.challenge.len() == CHALLENGE_SIZE
    }

    /// A session that nothing has come for yet.
    pub open spec fn fresh(zeta: ZetaView<App>, identity: Seq<u8>) -> Self {
        SessionView {
            zeta,
            window: Seq::new(COUNTER_WINDOW_MAX_OOO as nat, |i: int| 0u64),
            defrag: Seq::new(SESSION_MAX_FRAGMENTS_OOO as nat, |i: int| no_fragments()),
            identity,
            challenge: Seq::new(CHALLENGE_SIZE as nat, |i: int| 0u8),
        }
    }

    /// The session with another state of its state machine.
    pub open spec fn with_zeta(self, zeta: ZetaView<App>) -> Self {
        SessionView { zeta, ..self }
    }

    /// The session after an authentic packet with this counter was received.
    pub open spec fn with_counter(self, counter: u64) -> Self {
        SessionView { window: window_after(self.window, counter), ..self }
    }

    /// Why a packet of this type with this counter is not looked at, if it is not.
    pub open spec fn fragment_refused(self, packet_type: u8, counter: u64) -> Option<
        (FaultType, bool, u32),
    > {
        if packet_type == PACKET_TYPE_HANDSHAKE_RESPONSE {
            if !(self.zeta.beta is A1) {
                Some((FaultType::OutOfSequence, false, FAULT_RESPONSE_STAGE))
            } else if counter >= COUNTER_WINDOW_MAX_SKIP_AHEAD {
                Some((FaultType::ExpiredCounter, true, FAULT_RESPONSE_COUNTER))
            } else {
                None
            }
        } else if PACKET_TYPE_USES_COUNTER_FIRST <= packet_type <= PACKET_TYPE_USES_COUNTER_LAST {
            if self.zeta.beta is Null || !window_takes(self.window, counter) {
                Some((FaultType::ExpiredCounter, false, FAULT_EXPIRED_COUNTER))
            } else {
                None
            }
        } else if packet_type == PACKET_TYPE_HANDSHAKE_COMPLETION {
            Some((FaultType::InvalidPacket, false, FAULT_COMPLETION_REPEATED))
        } else {
            Some((FaultType::InvalidPacket, true, FAULT_SESSION_PACKET_TYPE))
        }
    }

    /// The session after a fragment has come, and the packet that is now there in full, or why
    /// the fragment is not taken.
    pub open spec fn fragment_taken(self, fragment: Seq<u8>) -> (
        Self,
        Result<Option<(Seq<u8>, Seq<Seq<u8>>)>, (FaultType, bool, u32)>,
    ) {
        let f = unprotected::<App>(self.zeta.hk_recv, fragment);
        match fragment_header(f) {
            None => (self, Err((FaultType::InvalidPacket, true, FAULT_FRAGMENT_HEADER))),
            Some((no, count, nonce)) => match self.fragment_refused(
                nonce_type(nonce),
                nonce_counter(nonce),
            ) {
                Some(refusal) => (self, Err(refusal)),
                None => if count > 1 {
                    let i = nonce_counter(nonce) as int % SESSION_MAX_FRAGMENTS_OOO as int;
                    let before = self.defrag[i];
                    (
                        SessionView {
                            defrag: self.defrag.update(i, before.after(nonce, f, no, count)),
                            ..self
                        },
                        if before.completes(nonce, no, count) {
                            Ok(Some((nonce, before.assembled(nonce, f, no, count))))
                        } else {
                            Ok(None)
                        },
                    )
                } else {
                    (self, Ok(Some((nonce, seq![f]))))
                },
            },
        }
    }

    /// `after` and `r` are what comes of a transition that answers with a packet.
    pub open spec fn answered(
        self,
        session: SessionHandle,
        counter: u64,
        zeta: ZetaView<App>,
        cause: Result<Packet, ZetaError>,
        event: SessionEvent,
        auth: u32,
        stage: u32,
        after: Self,
        r: Result<Processed, ReceiveError>,
    ) -> bool {
        match cause {
            Err(e) => after == self.with_zeta(zeta) && (r matches Err(x) && is_error_of(
                x,
                e,
                Some(session),
                auth,
                stage,
            )),
            Ok(packet) => after == self.with_zeta(zeta).with_counter(counter) && (r matches Ok(p)
                && p.event == event && packet_view(p.reply) == Some(packet@) && p.data@.len()
                == 0),
        }
    }

    /// `after` and `r` are what comes of a transition that answers nothing.
    pub open spec fn unanswered(
        self,
        session: SessionHandle,
        counter: u64,
        zeta: ZetaView<App>,
        cause: Result<(), ZetaError>,
        event: SessionEvent,
        auth: u32,
        stage: u32,
        after: Self,
        r: Result<Processed, ReceiveError>,
    ) -> bool {
        match cause {
            Err(e) => after == self.with_zeta(zeta) && (r matches Err(x) && is_error_of(
                x,
                e,
                Some(session),
                auth,
                stage,
            )),
            Ok(_) => after == self.with_zeta(zeta).with_counter(counter) && (r matches Ok(p)
                && p.event == event && p.reply is None && p.data@.len() == 0),
        }
    }

    /// `after` and `r` may be what comes of the data packet `packet` to the id `kid`.
    pub open spec fn data_processed(
        self,
        session: SessionHandle,
        kid: u32,
        n: Seq<u8>,
        packet: Seq<u8>,
        after: Self,
        r: Result<Processed, ReceiveError>,
    ) -> bool {
        match self.zeta.received(kid, n, packet) {
            Err(e) => after == self && (r matches Err(x) && is_error_of(
                x,
                e,
                Some(session),
                FAULT_DATA_AUTH,
                FAULT_DATA_STAGE,
            )),
            Ok(data) => after == self.with_counter(nonce_counter(n)) && (r matches Ok(p)
                && p.event == SessionEvent::Data && p.reply is None && p.data@ == data.subrange(
                0,
                data.len() - AES_GCM_TAG_SIZE,
            )),
        }
    }

    /// `after` and `r` may be what comes of the response `packet` to the id `kid`, and `app_after`
    /// what becomes of the application.
    pub open spec fn response_processed(
        self,
        app: App,
        s_secret: App::KeyPair,
        session: SessionHandle,
        kid: u32,
        n: Seq<u8>,
        packet: Seq<u8>,
        current_time: i64,
        after: Self,
        app_after: App,
        r: Result<Processed, ReceiveError>,
    ) -> bool {
        exists|zeta: ZetaView<App>, cause: Result<(Packet, bool), ZetaError>|
            {
                &&& #[trigger] response_handled(
                    app,
                    self.zeta,
                    kid,
                    nonce_counter(n),
                    packet,
                    s_secret,
                    self.identity,
                    current_time,
                    zeta,
                    app_after,
                    cause,
                )
                &&& after == self.with_zeta(zeta)
                &&& match cause {
                    Err(e) => r matches Err(x) && is_error_of(
                        x,
                        e,
                        Some(session),
                        FAULT_RESPONSE_AUTH,
                        FAULT_RESPONSE_SEQUENCE,
                    ),
                    Ok((x3, downgraded)) => r matches Ok(p) && packet_view(p.reply) == Some(x3@)
                        && p.data@.len() == 0 && p.event == if downgraded {
                        SessionEvent::DowngradedRatchetKey
                    } else {
                        SessionEvent::Control
                    },
                }
            }
    }

    /// The packet `packet` to the id `kid` is one that the session takes, and answers with its next
    /// counter.
    pub open spec fn takes_counter(
        self,
        s_secret: App::KeyPair,
        kid: u32,
        n: Seq<u8>,
        packet: Seq<u8>,
    ) -> bool {
        let packet_type = nonce_type(n);
        if packet_type == PACKET_TYPE_KEY_CONFIRM {
            self.zeta.confirmation_checked(kid, n, packet) is Ok
        } else if packet_type == PACKET_TYPE_REKEY_INIT {
            self.zeta.rekey_read(s_secret, kid, n, packet) is Ok
        } else if packet_type == PACKET_TYPE_REKEY_COMPLETE {
            self.zeta.rekey_answer_read(kid, n, packet) is Ok
        } else {
            false
        }
    }

    /// `after` and `r` may be what comes of the control packet `packet` to the id `kid`, and
    /// `app_after` what becomes of the application. A new key, if the packet asks for one, gets the
    /// id `kid_new`.
    pub open spec fn control_processed(
        self,
        app: App,
        s_secret: App::KeyPair,
        session: SessionHandle,
        kid: u32,
        kid_new: u32,
        n: Seq<u8>,
        packet: Seq<u8>,
        current_time: i64,
        after: Self,
        app_after: App,
        r: Result<Processed, ReceiveError>,
    ) -> bool {
        let packet_type = nonce_type(n);
        let counter = nonce_counter(n);
        if self.zeta.send_counter == u64::MAX && self.takes_counter(s_secret, kid, n, packet) {
            after == self && app_after == app && r == Err::<Processed, ReceiveError>(
                ReceiveError::MaxKeyLifetimeExceeded(session),
            )
        } else if packet_type == PACKET_TYPE_KEY_CONFIRM {
            exists|zeta: ZetaView<App>, cause: Result<Packet, ZetaError>|
                {
                    &&& #[trigger] self.zeta.confirmation_handled(
                        app,
                        kid,
                        n,
                        packet,
                        current_time,
                        zeta,
                        app_after,
                        cause,
                    )
                    &&& self.answered(
                        session,
                        counter,
                        zeta,
                        cause,
                        if self.zeta.beta is A3 && zeta.beta is S2 {
                            SessionEvent::Established
                        } else {
                            SessionEvent::Control
                        },
                        FAULT_CONFIRMATION_AUTH,
                        FAULT_CONFIRMATION_STAGE,
                        after,
                        r,
                    )
                }
        } else if packet_type == PACKET_TYPE_ACK {
            let cause = self.zeta.acknowledgement_checked(kid, n, packet);
            &&& app_after == app
            &&& if cause is Ok {
                exists|draw: u64|
                    self.unanswered(
                        session,
                        counter,
                        #[trigger] self.zeta.settled(app.settings_spec(), draw, current_time),
                        cause,
                        SessionEvent::Control,
                        FAULT_ACKNOWLEDGEMENT_AUTH,
                        FAULT_ACKNOWLEDGEMENT_STAGE,
                        after,
                        r,
                    )
            } else {
                self.unanswered(
                    session,
                    counter,
                    self.zeta,
                    cause,
                    SessionEvent::Control,
                    FAULT_ACKNOWLEDGEMENT_AUTH,
                    FAULT_ACKNOWLEDGEMENT_STAGE,
                    after,
                    r,
                )
            }
        } else if packet_type == PACKET_TYPE_REKEY_INIT {
            exists|zeta: ZetaView<App>, cause: Result<Packet, ZetaError>|
                {
                    &&& #[trigger] self.zeta.rekey_handled(
                        app,
                        kid_new,
                        s_secret,
                        kid,
                        n,
                        packet,
                        current_time,
                        zeta,
                        app_after,
                        cause,
                    )
                    &&& self.answered(
                        session,
                        counter,
                        zeta,
                        cause,
                        SessionEvent::Control,
                        FAULT_REKEY_AUTH,
                        FAULT_REKEY_STAGE,
                        after,
                        r,
                    )
                }
        } else if packet_type == PACKET_TYPE_REKEY_COMPLETE {
            exists|zeta: ZetaView<App>, cause: Result<Packet, ZetaError>|
                {
                    &&& #[trigger] self.zeta.rekey_completed(
                        app,
                        kid,
                        n,
                        packet,
                        current_time,
                        zeta,
                        app_after,
                        cause,
                    )
                    &&& self.answered(
                        session,
                        counter,
                        zeta,
                        cause,
                        SessionEvent::Control,
                        FAULT_REKEY_ANSWER_AUTH,
                        FAULT_REKEY_ANSWER_STAGE,
                        after,
                        r,
                    )
                }
        } else {
            let cause = self.zeta.rejection_checked(kid, n, packet);
            &&& app_after == app
            &&& self.unanswered(
                session,
                counter,
                if cause is Ok {
                    self.zeta.expired()
                } else {
                    self.zeta
                },
                cause,
                SessionEvent::Rejected,
                FAULT_REJECTION_AUTH,
                FAULT_REJECTION_STAGE,
                after,
                r,
            )
        }
    }

    /// `after` and `r` may be what comes of the packet `packet` to the id `kid`, and `app_after`
    /// what becomes of the application.
    pub open spec fn packet_processed(
        self,
        app: App,
        s_secret: App::KeyPair,
        session: SessionHandle,
        kid: u32,
        kid_new: u32,
        n: Seq<u8>,
        packet: Seq<u8>,
        current_time: i64,
        after: Self,
        app_after: App,
        r: Result<Processed, ReceiveError>,
    ) -> bool {
        if nonce_type(n) == PACKET_TYPE_DATA {
            app_after == app && self.data_processed(session, kid, n, packet, after, r)
        } else if nonce_type(n) == PACKET_TYPE_HANDSHAKE_RESPONSE {
            self.response_processed(
                app,
                s_secret,
                session,
                kid,
                n,
                packet,
                current_time,
                after,
                app_after,
                r,
            )
        } else {
            self.control_processed(
                app,
                s_secret,
                session,
                kid,
                kid_new,
                n,
                packet,
                current_time,
                after,
                app_after,
                r,
            )
        }
    }

    /// Every id that the session receives under is one that it had before, or `kid_new`.
    pub open spec fn keeps_kids(self, after: Self, kid_new: u32) -> bool {
        forall|is_next: bool|
            ({
                let kid = (#[trigger] after.zeta.key(is_next)).recv.kid;
                kid is None || kid == Some(kid_new) || kid == self.zeta.key(true).recv.kid || kid
                    == self.zeta.key(false).recv.kid
            })
    }
}

impl<App: ApplicationLayer> Session<App> {
    /// A session that nothing has come for yet.
    pub fn new(zeta: Zeta<App>, identity: Vec<u8>) -> (r: Self)
        requires
            zeta@.wf(),
        ensures
            r@ == SessionView::fresh(zeta@, identity@),
            r@.wf(),
    {
        let mut defrag: Vec<Fragged> = Vec::new();
        let mut i: usize = 0;
        while i < SESSION_MAX_FRAGMENTS_OOO
            invariant
                i <= SESSION_MAX_FRAGMENTS_OOO,
                defrag@.len() == i,
                forall|k: int| 0 <= k < i ==> (#[trigger] defrag@[k])@ == no_fragments(),
            decreases SESSION_MAX_FRAGMENTS_OOO - i,
        {
            defrag.push(Fragged::new());
            i += 1;
        }
        let r = Session {
            zeta,
            window: Window::new(),
            defrag,
            identity,
            challenge: [0u8; CHALLENGE_SIZE],
        };
        assert(r@.defrag =~= SessionView::fresh(zeta@, identity@).defrag);
        assert(r@.challenge =~= SessionView::fresh(zeta@, identity@).challenge);
        r
    }

    /// Says why a packet of this type with this counter is not looked at, if it is not.
    fn refuse_fragment(&self, packet_type: u8, counter: u64) -> (r: Option<(FaultType, bool, u32)>)
        ensures
            r == self@.fragment_refused(packet_type, counter),
    {
        if packet_type == PACKET_TYPE_HANDSHAKE_RESPONSE {
            match &self.zeta.beta {
                ZsspAutomata::A1 { .. } => {},
                // A resent handshake response from Bob may have arrived out of order,
                // after we already received one.
                _ => return Some((FaultType::OutOfSequence, false, FAULT_RESPONSE_STAGE)),
            }
            if counter >= COUNTER_WINDOW_MAX_SKIP_AHEAD {
                return Some((FaultType::ExpiredCounter, true, FAULT_RESPONSE_COUNTER));
            }
            None
        } else if PACKET_TYPE_USES_COUNTER_FIRST <= packet_type && packet_type
            <= PACKET_TYPE_USES_COUNTER_LAST {
            // For DOS resistant reply-protection we need to check that the given counter is
            // in the window of valid counters immediately.
            // But for packets larger than 1 fragment we can't actually record the
            // counter as received until we've authenticated the packet.
            // So we check the counter window twice, and only update it the second time
            // after the packet has been authenticated.
            let is_null = match &self.zeta.beta {
                ZsspAutomata::Null => true,
                _ => false,
            };
            if is_null || !self.window.check(counter) {
                // This can occur naturally if packets arrive way out of order, or
                // if they are duplicates.
                // This can also be naturally triggered if Bob has just successfully
                // received the first session key and is reject all of Alice's resends.
                // This can also occur if a session has expired, and the remote party is
                // still sending us data.
                return Some((FaultType::ExpiredCounter, false, FAULT_EXPIRED_COUNTER));
            }
            None
        } else if packet_type == PACKET_TYPE_HANDSHAKE_COMPLETION {
            // This can be triggered if Bob successfully received a session key and
            // needs to reject all of Alice's resends of the completion.
            Some((FaultType::InvalidPacket, false, FAULT_COMPLETION_REPEATED))
        } else {
            Some((FaultType::InvalidPacket, true, FAULT_SESSION_PACKET_TYPE))
        }
    }

    /// Takes a fragment that is addressed to the session: the packet that is now there in full.
    pub fn take_fragment(&mut self, session: SessionHandle, fragment: Vec<u8>) -> (r: Result<
        Option<Taken>,
        ReceiveError,
    >)
        requires
            old(self)@.wf(),
            fragment@.len() >= HEADER_AUTH_END,
        ensures
            ({
                let (after, taken) = old(self)@.fragment_taken(fragment@);
                &&& final(self)@ == after
                &&& match taken {
                    Err((error, unnatural, line)) => r matches Err(e) && is_fault(
                        e,
                        error,
                        unnatural,
                        Some(session),
                        line,
                    ),
                    Ok(None) => r matches Ok(None),
                    Ok(Some((nonce, fragments))) => r matches Ok(Some(t)) && t.nonce@ == nonce
                        && contents(t.fragments@) == fragments && forall|k: int|
                        0 <= k < t.fragments@.len() ==> (#[trigger] t.fragments@[k])@.len()
                            >= HEADER_SIZE,
                }
            }),
            r matches Ok(Some(t)) ==> final(self)@.fragment_refused(
                nonce_type(t.nonce@),
                nonce_counter(t.nonce@),
            ) is None,
            final(self)@.wf(),
    {
        let ghost before = self@;
        let fragment = unprotect::<App>(&self.zeta.hk_recv, fragment);
        let (no, count, nonce) = match parse_fragment_header(fragment.as_slice(), Some(session)) {
            Ok(parsed) => parsed,
            Err(e) => return Err(e),
        };
        let (packet_type, counter) = from_nonce(&nonce);
        if let Some((error, unnatural, line)) = self.refuse_fragment(packet_type, counter) {
            return Err(fault(error, unnatural, Some(session), line));
        }
        if count > 1 {
            let i: usize = (counter % SESSION_MAX_FRAGMENTS_OOO as u64) as usize;
            let ghost f = fragment@;
            assert(before.defrag[i as int] == self.defrag@[i as int]@);
            assert(before.defrag[i as int].sound());
            let assembled = self.defrag[i].assemble(&nonce, fragment, no, count);
            let ghost updated = before.defrag.update(
                i as int,
                before.defrag[i as int].after(nonce@, f, no as int, count as int),
            );
            assert(self@.defrag =~= updated);
            assert forall|k: int| 0 <= k < self@.defrag.len() implies (
            #[trigger] self@.defrag[k]).sound() by {
                assert(before.defrag[k].sound());
                assert(self@.defrag[i as int] == self.defrag@[i as int]@);
            }
            match assembled {
                Some(fragments) => Ok(Some(Taken { nonce, fragments })),
                None => Ok(None),
            }
        } else {
            let mut fragments: Vec<Vec<u8>> = Vec::new();
            fragments.push(fragment);
            assert(contents(fragments@) =~= seq![fragment@]);
            Ok(Some(Taken { nonce, fragments }))
        }
    }

    /// Records that an authentic packet with this counter was received.
    fn record(&mut self, counter: u64)
        requires
            window_takes(old(self)@.window, counter),
        ensures
            final(self)@ == old(self)@.with_counter(counter),
    {
        let ghost defrag = self@.defrag;
        self.window.update(counter);
        assert(self@.defrag == defrag);
    }

    /// Handles the data packet `packet` to the id `kid`.
    fn process_data(
        &mut self,
        session: SessionHandle,
        kid: u32,
        n: [u8; AES_GCM_IV_SIZE],
        packet: Vec<u8>,
    ) -> (r: Result<Processed, ReceiveError>)
        requires
            window_takes(old(self)@.window, nonce_counter(n@)),
        ensures
            old(self)@.data_processed(session, kid, n@, packet@, final(self)@, r),
    {
        match self.zeta.recv(kid, n, packet) {
            Err(e) => Err(error_of(e, Some(session), FAULT_DATA_AUTH, FAULT_DATA_STAGE)),
            Ok(data) => {
                let (_, counter) = from_nonce(&n);
                self.record(counter);
                let data = part(data.as_slice(), 0, data.len() - AES_GCM_TAG_SIZE);
                Ok(Processed { event: SessionEvent::Data, reply: None, data })
            },
        }
    }

    /// Handles the response `packet` to the id `kid`.
    fn process_response(
        &mut self,
        app: &mut App,
        s_secret: &App::KeyPair,
        session: SessionHandle,
        kid: u32,
        n: [u8; AES_GCM_IV_SIZE],
        packet: Vec<u8>,
        current_time: i64,
    ) -> (r: Result<Processed, ReceiveError>)
        requires
            old(self)@.wf(),
            old(app).settings_spec().valid(),
            old(app).settings_spec().reckons_from(current_time),
        ensures
            old(self)@.response_processed(
                *old(app),
                *s_secret,
                session,
                kid,
                n@,
                packet@,
                current_time,
                final(self)@,
                *final(app),
                r,
            ),
            final(self)@.wf(),
            final(app).settings_spec() == old(app).settings_spec(),
            r matches Ok(p) ==> (p.reply matches Some(reply) ==> reply@.measured()),
    {
        let ghost before = self@;
        let (_, counter) = from_nonce(&n);
        let cause = self.zeta.trans_a1_to_a3(
            app,
            kid,
            counter,
            packet,
            s_secret,
            self.identity.as_slice(),
            current_time,
        );
        assert(response_handled(
            *old(app),
            before.zeta,
            kid,
            nonce_counter(n@),
            packet@,
            *s_secret,
            before.identity,
            current_time,
            self@.zeta,
            *app,
            cause,
        ));
        match cause {
            Err(e) => Err(
                error_of(e, Some(session), FAULT_RESPONSE_AUTH, FAULT_RESPONSE_SEQUENCE),
            ),
            Ok((x3, downgraded)) => {
                let event = if downgraded {
                    SessionEvent::DowngradedRatchetKey
                } else {
                    SessionEvent::Control
                };
                Ok(Processed { event, reply: Some(x3), data: Vec::new() })
            },
        }
    }

    /// Concludes a transition that answers with a packet.
    fn answer(
        &mut self,
        session: SessionHandle,
        counter: u64,
        cause: Result<Packet, ZetaError>,
        event: SessionEvent,
        auth: u32,
        stage: u32,
    ) -> (r: Result<Processed, ReceiveError>)
        requires
            window_takes(old(self)@.window, counter),
            cause matches Ok(p) ==> p@.measured(),
        ensures
            old(self)@.answered(
                session,
                counter,
                old(self)@.zeta,
                cause,
                event,
                auth,
                stage,
                final(self)@,
                r,
            ),
            r matches Ok(p) ==> (p.reply matches Some(reply) ==> reply@.measured()),
    {
        match cause {
            Err(e) => Err(error_of(e, Some(session), auth, stage)),
            Ok(packet) => {
                self.record(counter);
                Ok(Processed { event, reply: Some(packet), data: Vec::new() })
            },
        }
    }

    /// Concludes a transition that answers nothing.
    fn conclude(
        &mut self,
        session: SessionHandle,
        counter: u64,
        cause: Result<(), ZetaError>,
        event: SessionEvent,
        auth: u32,
        stage: u32,
    ) -> (r: Result<Processed, ReceiveError>)
        requires
            window_takes(old(self)@.window, counter),
        ensures
            old(self)@.unanswered(
                session,
                counter,
                old(self)@.zeta,
                cause,
                event,
                auth,
                stage,
                final(self)@,
                r,
            ),
            r matches Ok(p) ==> (p.reply matches Some(reply) ==> reply@.measured()),
    {
        match cause {
            Err(e) => Err(error_of(e, Some(session), auth, stage)),
            Ok(_) => {
                self.record(counter);
                Ok(Processed { event, reply: None, data: Vec::new() })
            },
        }
    }

    /// Says whether the packet `packet` to the id `kid` is one that the session takes, and answers
    /// with its next counter.
    fn needs_counter(
        &self,
        s_secret: &App::KeyPair,
        kid: u32,
        n: &[u8; AES_GCM_IV_SIZE],
        packet: &Vec<u8>,
    ) -> (r: bool)
        requires
            self@.wf(),
        ensures
            r == self@.takes_counter(*s_secret, kid, n@, packet@),
    {
        let (packet_type, _) = from_nonce(n);
        if packet_type == PACKET_TYPE_KEY_CONFIRM {
            self.zeta.check_confirmation(kid, n, packet).is_ok()
        } else if packet_type == PACKET_TYPE_REKEY_INIT {
            self.zeta.read_rekey(s_secret, kid, n, packet).is_ok()
        } else if packet_type == PACKET_TYPE_REKEY_COMPLETE {
            self.zeta.read_rekey_answer(kid, n, packet).is_ok()
        } else {
            false
        }
    }

    /// Handles the control packet `packet` to the id `kid`. A new key, if the packet asks for
    /// one, gets the id `kid_new`.
    fn process_control(
        &mut self,
        app: &mut App,
        rng: &mut OsRng,
        s_secret: &App::KeyPair,
        session: SessionHandle,
        kid: u32,
        kid_new: u32,
        n: [u8; AES_GCM_IV_SIZE],
        packet: Vec<u8>,
        current_time: i64,
    ) -> (r: Result<Processed, ReceiveError>)
        requires
            old(self)@.wf(),
            kid_new != 0,
            PACKET_TYPE_KEY_CONFIRM <= nonce_type(n@) <= PACKET_TYPE_SESSION_REJECTED,
            window_takes(old(self)@.window, nonce_counter(n@)),
            old(app).settings_spec().valid(),
            old(app).settings_spec().reckons_from(current_time),
        ensures
            old(self)@.control_processed(
                *old(app),
                *s_secret,
                session,
                kid,
                kid_new,
                n@,
                packet@,
                current_time,
                final(self)@,
                *final(app),
                r,
            ),
            final(self)@.wf(),
            final(app).settings_spec() == old(app).settings_spec(),
            r matches Ok(p) ==> (p.reply matches Some(reply) ==> reply@.measured()),
    {
        let ghost before = self@;
        let (packet_type, counter) = from_nonce(&n);
        if self.zeta.send_counter == u64::MAX && self.needs_counter(s_secret, kid, &n, &packet) {
            return Err(ReceiveError::MaxKeyLifetimeExceeded(session));
        }
        if packet_type == PACKET_TYPE_KEY_CONFIRM {
            let was_a3 = match &self.zeta.beta {
                ZsspAutomata::A3 { .. } => true,
                _ => false,
            };
            let cause = self.zeta.trans_to_s2(app, rng, kid, n, packet, current_time);
            assert(before.zeta.confirmation_handled(
                *old(app),
                kid,
                n@,
                packet@,
                current_time,
                self@.zeta,
                *app,
                cause,
            ));
            let is_s2 = match &self.zeta.beta {
                ZsspAutomata::S2 => true,
                _ => false,
            };
            let event = if was_a3 && is_s2 {
                SessionEvent::Established
            } else {
                SessionEvent::Control
            };
            self.answer(
                session,
                counter,
                cause,
                event,
                FAULT_CONFIRMATION_AUTH,
                FAULT_CONFIRMATION_STAGE,
            )
        } else if packet_type == PACKET_TYPE_ACK {
            let cause = self.zeta.trans_s1_to_s2(app, rng, kid, n, packet, current_time);
            self.conclude(
                session,
                counter,
                cause,
                SessionEvent::Control,
                FAULT_ACKNOWLEDGEMENT_AUTH,
                FAULT_ACKNOWLEDGEMENT_STAGE,
            )
        } else if packet_type == PACKET_TYPE_REKEY_INIT {
            let cause = self.zeta.trans_to_r2(
                app,
                rng,
                kid_new,
                s_secret,
                kid,
                n,
                packet,
                current_time,
            );
            assert(before.zeta.rekey_handled(
                *old(app),
                kid_new,
                *s_secret,
                kid,
                n@,
                packet@,
                current_time,
                self@.zeta,
                *app,
                cause,
            ));
            self.answer(
                session,
                counter,
                cause,
                SessionEvent::Control,
                FAULT_REKEY_AUTH,
                FAULT_REKEY_STAGE,
            )
        } else if packet_type == PACKET_TYPE_REKEY_COMPLETE {
            let cause = self.zeta.trans_r1_to_s1(app, kid, n, packet, current_time);
            assert(before.zeta.rekey_completed(
                *old(app),
                kid,
                n@,
                packet@,
                current_time,
                self@.zeta,
                *app,
                cause,
            ));
            self.answer(
                session,
                counter,
                cause,
                SessionEvent::Control,
                FAULT_REKEY_ANSWER_AUTH,
                FAULT_REKEY_ANSWER_STAGE,
            )
        } else {
            let cause = self.zeta.trans_a3_to_null(kid, n, packet);
            self.conclude(
                session,
                counter,
                cause,
                SessionEvent::Rejected,
                FAULT_REJECTION_AUTH,
                FAULT_REJECTION_STAGE,
            )
        }
    }

    /// Handles the packet `packet` to the id `kid`, which has passed the check of its type and
    /// counter. A new key, if the packet asks for one, gets the id `kid_new`.
    pub fn process_packet(
        &mut self,
        app: &mut App,
        rng: &mut OsRng,
        s_secret: &App::KeyPair,
        session: SessionHandle,
        kid: u32,
        kid_new: u32,
        n: [u8; AES_GCM_IV_SIZE],
        packet: Vec<u8>,
        current_time: i64,
    ) -> (r: Result<Processed, ReceiveError>)
        requires
            old(self)@.wf(),
            kid_new != 0,
            old(self)@.fragment_refused(nonce_type(n@), nonce_counter(n@)) is None,
            old(app).settings_spec().valid(),
            old(app).settings_spec().reckons_from(current_time),
        ensures
            old(self)@.packet_processed(
                *old(app),
                *s_secret,
                session,
                kid,
                kid_new,
                n@,
                packet@,
                current_time,
                final(self)@,
                *final(app),
                r,
            ),
            final(self)@.wf(),
            final(app).settings_spec() == old(app).settings_spec(),
            r matches Ok(p) ==> (p.reply matches Some(reply) ==> reply@.measured()),
    {
        let (packet_type, _) = from_nonce(&n);
        if packet_type == PACKET_TYPE_DATA {
            self.process_data(session, kid, n, packet)
        } else if packet_type == PACKET_TYPE_HANDSHAKE_RESPONSE {
            self.process_response(app, s_secret, session, kid, n, packet, current_time)
        } else {
            self.process_control(
                app,
                rng,
                s_secret,
                session,
                kid,
                kid_new,
                n,
                packet,
                current_time,
            )
        }
    }
}

/// Whatever comes of a packet, the session receives under no other ids than before, except the
/// one that a new key was given.
pub proof fn law_packet_keeps_kids<App: ApplicationLayer>(
    app: App,
    before: SessionView<App>,
    s_secret: App::KeyPair,
    session: SessionHandle,
    kid: u32,
    kid_new: u32,
    n: Seq<u8>,
    packet: Seq<u8>,
    current_time: i64,
    after: SessionView<App>,
    app_after: App,
    r: Result<Processed, ReceiveError>,
)
    requires
        before.packet_processed(
            app,
            s_secret,
            session,
            kid,
            kid_new,
            n,
            packet,
            current_time,
            after,
            app_after,
            r,
        ),
    ensures
        before.keeps_kids(after, kid_new),
{
}

} // verus!
