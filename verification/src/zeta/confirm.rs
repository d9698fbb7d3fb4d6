//! Key confirmations and acknowledgements, which settle a session on its newest key.

use rand_core::OsRng;
use vstd::prelude::*;

use crate::application::{ApplicationLayer, RatchetStates, RatchetStatesView, Settings};
use crate::proto::{
    ACKNOWLEDGEMENT_SIZE, AES_GCM_IV_SIZE, KEY_CONFIRMATION_SIZE, PACKET_TYPE_ACK, SESSION_REJECTED_SIZE,
};
use crate::random::random_u64;
use crate::ratchet_state::clone_ratchet;
use crate::result::ZetaError;
use crate::zeta::sealed::{control_authentic, control_tag, open_control, seal_control};
use crate::zeta::{nonce, nonce_spec, BetaView, Packet, PacketView, Zeta, ZetaView, ZsspAutomata};

verus! {

/// The remainder of a random number by `max`, where the upper half of the numbers counts as
/// negative: the remainder has the sign of the number.
pub open spec fn jitter_spec(draw: u64, max: i64) -> int {
    if draw <= i64::MAX {
        draw as int % max as int
    } else {
        -((0x1_0000_0000_0000_0000 - draw) % max as int)
    }
}

/// The remainder of a random number by `max`, where the upper half of the numbers counts as
/// negative: the remainder has the sign of the number.
pub fn jitter(draw: u64, max: i64) -> (r: i64)
    requires
        max > 0,
    ensures
        r == jitter_spec(draw, max),
        -max < r < max,
{
    if draw <= i64::MAX as u64 {
        (draw % (max as u64)) as i64
    } else {
        let size: u64 = (u64::MAX - draw) + 1;
        -((size % (max as u64)) as i64)
    }
}

impl<App: ApplicationLayer> ZetaView<App> {
    /// The session once its current key is confirmed. It asks for a new key when the random
    /// time that `draw` stands for has passed.
    pub open spec fn settled(self, settings: Settings, draw: u64, current_time: i64) -> Self {
        ZetaView {
            timeout_timer: (current_time + jitter_spec(
                draw,
                settings.rekey_after_time_max_jitter_ms,
            )) as i64,
            resend_timer: i64::MAX,
            beta: BetaView::S2,
            ..self
        }
    }

    /// The session once the keys that were to follow have become the current ones.
    pub open spec fn switched(self) -> Self {
        ZetaView {
            ratchet_states: RatchetStatesView { second: None, ..self.ratchet_states },
            key_index: !self.key_index,
            ..self
        }
    }

    /// The keys that the key confirmation `c1` to the id `kid` is for, or why it is not taken.
    pub open spec fn confirmation_checked(self, kid: u32, n: Seq<u8>, c1: Seq<u8>) -> Result<
        bool,
        ZetaError,
    > {
        if c1.len() != KEY_CONFIRMATION_SIZE {
            Err(ZetaError::FailedAuthentication)
        } else {
            match self.keys_of(kid) {
                None => Err(ZetaError::OutOfSequence),
                Some(is_next) => match self.key(is_next).recv.kek {
                    None => Err(ZetaError::OutOfSequence),
                    Some(kek) => if control_authentic::<App>(kek, n, c1) {
                        Ok(is_next)
                    } else {
                        Err(ZetaError::FailedAuthentication)
                    },
                },
            }
        }
    }

    /// The session waits for the confirmation of the keys that are to follow.
    pub open spec fn awaits_confirmation(self) -> bool {
        self.beta is A3 || self.beta is R2
    }

    /// The session after it has acknowledged its current key.
    pub open spec fn acknowledged(self) -> Self {
        ZetaView { send_counter: (self.send_counter + 1) as u64, ..self }
    }

    /// The acknowledgement of the current key, where there is a key to seal it with.
    pub open spec fn acknowledgement(self) -> Option<PacketView> {
        let n = nonce_spec(PACKET_TYPE_ACK, self.send_counter);
        match self.key(false).send.kek {
            None => None,
            Some(kek) => Some(
                PacketView {
                    kid: self.key(false).send.kid->0,
                    nonce: n,
                    payload: control_tag::<App>(kek, n),
                },
            ),
        }
    }

    /// `after` and `r` are what comes of acknowledging the current key.
    pub open spec fn acknowledges(self, after: Self, r: Result<Packet, ZetaError>) -> bool {
        &&& after == self.acknowledged()
        &&& match self.acknowledgement() {
            None => r matches Err(ZetaError::OutOfSequence),
            Some(packet) => r matches Ok(p) && p@ == packet,
        }
    }

    /// `after` and `r` may be what comes of the key confirmation `c1` to the id `kid`, and
    /// `app_after` what becomes of the application. It is called only where the keys that are to
    /// follow are confirmed and there is a ratchet state to drop from storage.
    pub open spec fn confirmation_handled(
        self,
        app: App,
        kid: u32,
        n: Seq<u8>,
        c1: Seq<u8>,
        current_time: i64,
        after: Self,
        app_after: App,
        r: Result<Packet, ZetaError>,
    ) -> bool {
        match self.confirmation_checked(kid, n, c1) {
            Err(e) => after == self && app_after == app && r == Err::<Packet, ZetaError>(e),
            Ok(is_next) => if is_next && self.awaits_confirmation() {
                ||| {
                    &&& self.ratchet_states.second is Some
                    &&& exists|e: std::io::Error|
                        {
                            &&& #[trigger] app.may_save_ratchet_state(
                                self.s_remote,
                                self.application_data,
                                self.ratchet_states,
                                self.switched().ratchet_states,
                                Err(e),
                                app_after,
                            )
                            &&& after == self
                            &&& r == Err::<Packet, ZetaError>(ZetaError::RatchetIoError(e))
                        }
                }
                ||| {
                    &&& self.ratchet_states.second is Some ==> exists|
                        saved: Result<(), std::io::Error>,
                    |
                        {
                            &&& #[trigger] app.may_save_ratchet_state(
                                self.s_remote,
                                self.application_data,
                                self.ratchet_states,
                                self.switched().ratchet_states,
                                saved,
                                app_after,
                            )
                            &&& saved is Ok
                        }
                    &&& self.ratchet_states.second is None ==> app_after == app
                    &&& exists|draw: u64| #[trigger]
                        self.switched().settled(
                            app.settings_spec(),
                            draw,
                            current_time,
                        ).acknowledges(after, r)
                }
            } else {
                app_after == app && self.acknowledges(after, r)
            },
        }
    }

    /// Why the acknowledgement `c2` to the id `kid` is not taken, if it is not.
    pub open spec fn acknowledgement_checked(self, kid: u32, n: Seq<u8>, c2: Seq<u8>) -> Result<
        (),
        ZetaError,
    > {
        if c2.len() != ACKNOWLEDGEMENT_SIZE {
            Err(ZetaError::FailedAuthentication)
        } else if self.key(false).recv.kid != Some(kid) || !(self.beta is S1) {
            Err(ZetaError::OutOfSequence)
        } else if control_authentic::<App>(self.key(false).recv.kek->0, n, c2) {
            Ok(())
        } else {
            Err(ZetaError::FailedAuthentication)
        }
    }
}

impl<App: ApplicationLayer> ZetaView<App> {
    /// Why the refusal `d` of a session to the id `kid` is not taken, if it is not. Only an
    /// initiator that has sent its completion takes one.
    pub open spec fn rejection_checked(self, kid: u32, n: Seq<u8>, d: Seq<u8>) -> Result<
        (),
        ZetaError,
    > {
        if d.len() != SESSION_REJECTED_SIZE {
            Err(ZetaError::FailedAuthentication)
        } else if self.key(true).recv.kid != Some(kid) || !(self.beta is A3) {
            Err(ZetaError::OutOfSequence)
        } else if control_authentic::<App>(self.key(true).recv.kek->0, n, d) {
            Ok(())
        } else {
            Err(ZetaError::FailedAuthentication)
        }
    }
}

impl<App: ApplicationLayer> Zeta<App> {
    /// Handles the refusal `d` of the session to the id `kid`, which ends the session.
    pub fn trans_a3_to_null(
        &mut self,
        kid: u32,
        n: [u8; AES_GCM_IV_SIZE],
        d: Vec<u8>,
    ) -> (r: Result<(), ZetaError>)
        requires
            old(self)@.wf(),
        ensures
            r == old(self)@.rejection_checked(kid, n@, d@),
            final(self)@ == if r is Ok {
                old(self)@.expired()
            } else {
                old(self)@
            },
            final(self)@.wf(),
    {
        if d.len() != SESSION_REJECTED_SIZE {
            return Err(ZetaError::FailedAuthentication);
        }
        let keys = self.key_ref(true);
        match keys.recv.kid {
            Some(kid_recv) => {
                if kid_recv != kid {
                    return Err(ZetaError::OutOfSequence);
                }
            },
            None => return Err(ZetaError::OutOfSequence),
        }
        match &self.beta {
            ZsspAutomata::A3 { .. } => {},
            _ => return Err(ZetaError::OutOfSequence),
        }
        if !open_control::<App>(keys.recv.kek.as_ref().unwrap(), &n, &d) {
            return Err(ZetaError::FailedAuthentication);
        }
        self.expire();
        Ok(())
    }

    /// Checks the key confirmation `c1` to the id `kid`: the keys that it is for.
    pub fn check_confirmation(
        &self,
        kid: u32,
        n: &[u8; AES_GCM_IV_SIZE],
        c1: &Vec<u8>,
    ) -> (r: Result<bool, ZetaError>)
        ensures
            r == self@.confirmation_checked(kid, n@, c1@),
    {
        if c1.len() != KEY_CONFIRMATION_SIZE {
            return Err(ZetaError::FailedAuthentication);
        }
        let is_next = match self.keys_for(kid) {
            Some(is_next) => is_next,
            None => return Err(ZetaError::OutOfSequence),
        };
        match &self.key_ref(is_next).recv.kek {
            None => Err(ZetaError::OutOfSequence),
            Some(kek) => {
                if open_control::<App>(kek, n, c1) {
                    Ok(is_next)
                } else {
                    Err(ZetaError::FailedAuthentication)
                }
            },
        }
    }

    /// Settles on the current key, which has been confirmed.
    pub fn settle(&mut self, settings: &Settings, draw: u64, current_time: i64)
        requires
            settings.valid(),
            settings.reckons_from(current_time),
        ensures
            final(self)@ == old(self)@.settled(*settings, draw, current_time),
    {
        let delay = jitter(draw, settings.rekey_after_time_max_jitter_ms);
        self.timeout_timer = current_time + delay;
        self.resend_timer = i64::MAX;
        self.beta = ZsspAutomata::S2;
    }

    /// Makes the keys that were to follow the current ones.
    pub fn switch(&mut self)
        ensures
            final(self)@ == old(self)@.switched(),
    {
        self.ratchet_states.second = None;
        self.key_index = !self.key_index;
    }

    /// Acknowledges the current key.
    pub fn acknowledge(&mut self) -> (r: Result<Packet, ZetaError>)
        requires
            old(self)@.wf(),
            old(self)@.send_counter < u64::MAX,
        ensures
            old(self)@.acknowledges(final(self)@, r),
            final(self)@.wf(),
            r matches Ok(p) ==> p@.payload.len() == ACKNOWLEDGEMENT_SIZE,
    {
        let c = self.send_counter;
        self.send_counter += 1;
        let n = nonce(PACKET_TYPE_ACK, c);
        let keys = self.key_ref(false);
        match &keys.send.kek {
            None => Err(ZetaError::OutOfSequence),
            Some(kek) => Ok(Packet(keys.send.kid.unwrap(), n, seal_control::<App>(kek, &n))),
        }
    }

    /// Handles the key confirmation `c1` to the id `kid`: the acknowledgement to send. Where
    /// the keys that are to follow are confirmed they become the current ones, once the ratchet
    /// state that they no longer need is gone from storage.
    pub fn trans_to_s2(
        &mut self,
        app: &mut App,
        rng: &mut OsRng,
        kid: u32,
        n: [u8; AES_GCM_IV_SIZE],
        c1: Vec<u8>,
        current_time: i64,
    ) -> (r: Result<Packet, ZetaError>)
        requires
            old(self)@.wf(),
            old(self)@.confirmation_checked(kid, n@, c1@) is Ok ==> old(self)@.send_counter
                < u64::MAX,
            old(app).settings_spec().valid(),
            old(app).settings_spec().reckons_from(current_time),
        ensures
            old(self)@.confirmation_handled(
                *old(app),
                kid,
                n@,
                c1@,
                current_time,
                final(self)@,
                *final(app),
                r,
            ),
            final(self)@.wf(),
            final(app).settings_spec() == old(app).settings_spec(),
            r matches Ok(p) ==> p@.payload.len() == ACKNOWLEDGEMENT_SIZE,
    {
        let is_next = match self.check_confirmation(kid, &n, &c1) {
            Ok(is_next) => is_next,
            Err(e) => return Err(e),
        };
        let awaits = match &self.beta {
            ZsspAutomata::A3 { .. } => true,
            ZsspAutomata::R2 { .. } => true,
            _ => false,
        };
        if is_next && awaits {
            if self.ratchet_states.second.is_some() {
                let states = RatchetStates {
                    first: clone_ratchet(&self.ratchet_states.first),
                    second: None,
                };
                assert(states@ == self@.switched().ratchet_states);
                match app.save_ratchet_state(
                    &self.s_remote,
                    &self.application_data,
                    &self.ratchet_states,
                    &states,
                ) {
                    Ok(()) => {},
                    Err(e) => return Err(ZetaError::RatchetIoError(e)),
                }
            }
            let settings = app.settings();
            let draw = random_u64(rng);
            self.switch();
            self.settle(&settings, draw, current_time);
            let ghost settled = self@;
            let r = self.acknowledge();
            assert(settled == old(self)@.switched().settled(
                app.settings_spec(),
                draw,
                current_time,
            ));
            assert(settled.acknowledges(self@, r));
            return r;
        }
        self.acknowledge()
    }

    /// Checks the acknowledgement `c2` to the id `kid`.
    pub fn check_acknowledgement(
        &self,
        kid: u32,
        n: &[u8; AES_GCM_IV_SIZE],
        c2: &Vec<u8>,
    ) -> (r: Result<(), ZetaError>)
        requires
            self@.wf(),
        ensures
            r == self@.acknowledgement_checked(kid, n@, c2@),
    {
        if c2.len() != ACKNOWLEDGEMENT_SIZE {
            return Err(ZetaError::FailedAuthentication);
        }
        let keys = self.key_ref(false);
        match keys.recv.kid {
            Some(kid_recv) => {
                if kid_recv != kid {
                    return Err(ZetaError::OutOfSequence);
                }
            },
            None => return Err(ZetaError::OutOfSequence),
        }
        match &self.beta {
            ZsspAutomata::S1 => {},
            _ => return Err(ZetaError::OutOfSequence),
        }
        if open_control::<App>(keys.recv.kek.as_ref().unwrap(), n, c2) {
            Ok(())
        } else {
            Err(ZetaError::FailedAuthentication)
        }
    }

    /// Handles the acknowledgement `c2` to the id `kid`, which settles the session on its
    /// current key.
    pub fn trans_s1_to_s2(
        &mut self,
        app: &App,
        rng: &mut OsRng,
        kid: u32,
        n: [u8; AES_GCM_IV_SIZE],
        c2: Vec<u8>,
        current_time: i64,
    ) -> (r: Result<(), ZetaError>)
        requires
            old(self)@.wf(),
            app.settings_spec().valid(),
            app.settings_spec().reckons_from(current_time),
        ensures
            r == old(self)@.acknowledgement_checked(kid, n@, c2@),
            r is Err ==> final(self)@ == old(self)@,
            r is Ok ==> exists|draw: u64|
                final(self)@ == #[trigger] old(self)@.settled(
                    app.settings_spec(),
                    draw,
                    current_time,
                ),
            final(self)@.wf(),
    {
        if let Err(e) = self.check_acknowledgement(kid, &n, &c2) {
            return Err(e);
        }
        let settings = app.settings();
        let draw = random_u64(rng);
        self.settle(&settings, draw, current_time);
        Ok(())
    }
}

} // verus!
