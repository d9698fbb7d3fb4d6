//! What sessions do when their timers run out: packets are sent again, new keys are asked for,
//! and sessions that have waited too long expire.

use rand_core::OsRng;
use vstd::prelude::*;

use crate::application::{ApplicationLayer, Settings};
use crate::bytes::{append, part};
use crate::proto::{
    u64_from_be_bytes, PACKET_TYPE_HANDSHAKE_COMPLETION, PACKET_TYPE_HANDSHAKE_HELLO,
    PACKET_TYPE_KEY_CONFIRM, PACKET_TYPE_REKEY_COMPLETE, PACKET_TYPE_REKEY_INIT,
};
use crate::result::ZetaError;
use crate::session::{Session, SessionView};
use crate::symmetric_state::Noise;
use crate::zeta::completion::packet_view;
use crate::zeta::hello::hello_counter;
use crate::zeta::response::completion_packet;
use crate::zeta::sealed::{control_tag, seal_control};
use crate::zeta::{nonce, nonce_spec, BetaView, Packet, PacketView, Zeta, ZetaView, ZsspAutomata};

verus! {

/// The packet that carries the hello `x1` with an answer to the challenge of the responder.
pub open spec fn hello_packet(x1: Seq<u8>, challenge: Seq<u8>) -> PacketView {
    PacketView {
        kid: 0,
        nonce: nonce_spec(PACKET_TYPE_HANDSHAKE_HELLO, hello_counter(x1)),
        payload: x1 + challenge,
    }
}

impl<App: ApplicationLayer> ZetaView<App> {
    /// The time of the next timer.
    pub open spec fn next_timer(self) -> i64 {
        if self.resend_timer < self.timeout_timer {
            self.resend_timer
        } else {
            self.timeout_timer
        }
    }
}

impl<App: ApplicationLayer> SessionView<App> {
    /// The packet of a key exchange that the other end has not answered, as it is sent again. A key
    /// confirmation goes out under the next counter, any other packet as it was.
    pub open spec fn resent(self) -> Option<PacketView> {
        match self.zeta.beta {
            BetaView::A1 { x1, .. } => Some(hello_packet(x1, self.challenge)),
            BetaView::A3 { x3 } => Some(
                completion_packet(self.zeta.key(true).send.kid->0, x3),
            ),
            BetaView::S1 => if self.zeta.send_counter == u64::MAX {
                None
            } else {
                let n = nonce_spec(PACKET_TYPE_KEY_CONFIRM, self.zeta.send_counter);
                Some(
                    PacketView {
                        kid: self.zeta.key(false).send.kid->0,
                        nonce: n,
                        payload: control_tag::<App>(self.zeta.key(false).send.kek->0, n),
                    },
                )
            },
            BetaView::R1 { k1, counter, .. } => Some(
                PacketView {
                    kid: self.zeta.key(false).send.kid->0,
                    nonce: nonce_spec(PACKET_TYPE_REKEY_INIT, counter),
                    payload: k1,
                },
            ),
            BetaView::R2 { k2, counter } => Some(
                PacketView {
                    kid: self.zeta.key(false).send.kid->0,
                    nonce: nonce_spec(PACKET_TYPE_REKEY_COMPLETE, counter),
                    payload: k2,
                },
            ),
            _ => None,
        }
    }

    /// The session after it has sent a packet again.
    pub open spec fn after_resend(self, settings: Settings, current_time: i64) -> Self {
        self.with_zeta(
            ZetaView {
                send_counter: if self.zeta.beta is S1 && self.zeta.send_counter < u64::MAX {
                    (self.zeta.send_counter + 1) as u64
                } else {
                    self.zeta.send_counter
                },
                resend_timer: (current_time + settings.retry_interval_ms) as i64,
                ..self.zeta
            },
        )
    }

    /// `after`, `next` and `packet` may be what comes of the timers of the session at
    /// `current_time`. A new key, if one is asked for, gets the id `kid_new`.
    pub open spec fn timers_processed(
        self,
        app: App,
        s_secret: App::KeyPair,
        kid_new: u32,
        current_time: i64,
        after: Self,
        next: Option<i64>,
        packet: Option<Packet>,
    ) -> bool {
        if self.zeta.beta is Null {
            after == self && next is None && packet is None
        } else if self.zeta.timeout_timer <= current_time {
            if self.zeta.beta is S2 && self.zeta.send_counter < u64::MAX {
                exists|zeta: ZetaView<App>, cause: Result<Packet, ZetaError>|
                    {
                        &&& #[trigger] self.zeta.rekey_offer_handled(
                            app.settings_spec(),
                            kid_new,
                            s_secret,
                            current_time,
                            zeta,
                            cause,
                        )
                        &&& match cause {
                            Err(_) => after == self.with_zeta(zeta.expired()) && next is None
                                && packet is None,
                            Ok(k1) => after == self.with_zeta(zeta) && next == Some(
                                zeta.next_timer(),
                            ) && packet_view(packet) == Some(k1@),
                        }
                    }
            } else {
                after == self.with_zeta(self.zeta.expired()) && next is None && packet is None
            }
        } else if self.zeta.resend_timer <= current_time {
            &&& after == self.after_resend(app.settings_spec(), current_time)
            &&& next == Some(after.zeta.next_timer())
            &&& packet_view(packet) == self.resent()
        } else {
            after == self && next == Some(self.zeta.next_timer()) && packet is None
        }
    }
}

/// Whatever comes of the timers of a session, it receives under no other ids than before, except
/// the one that a new key was given; and where it is to be looked at again, that is not before
/// now.
pub proof fn law_timers<App: ApplicationLayer>(
    app: App,
    before: SessionView<App>,
    s_secret: App::KeyPair,
    kid_new: u32,
    current_time: i64,
    after: SessionView<App>,
    next: Option<i64>,
    packet: Option<Packet>,
)
    requires
        before.timers_processed(app, s_secret, kid_new, current_time, after, next, packet),
        app.settings_spec().valid(),
        app.settings_spec().reckons_from(current_time),
    ensures
        before.keeps_kids(after, kid_new),
        next matches Some(timer) ==> timer >= current_time && timer == after.zeta.next_timer(),
        next is None <==> after.zeta.beta is Null,
{
}

/// A rekeying packet that is sent again is the one that was sent.
pub proof fn law_rekeying_resent<App: ApplicationLayer>(
    session: SessionView<App>,
    settings: Settings,
    kid_recv: u32,
    kid_send: u32,
    s_secret: App::KeyPair,
    e_secret: App::KeyPair,
    noise: Noise,
    inner: Seq<u8>,
    current_time: i64,
)
    ensures
        session.zeta.rekey_offered(
            settings,
            kid_recv,
            s_secret,
            e_secret,
            current_time,
        ) matches Some((zeta, packet)) ==> session.with_zeta(zeta).resent() == Some(packet),
        ({
            let packet = session.zeta.rekey_answer_packet(inner);
            let zeta = session.zeta.r2_session(
                settings,
                noise,
                kid_send,
                kid_recv,
                packet.payload,
                current_time,
            );
            session.with_zeta(zeta).resent() == Some(packet)
        }),
{
}

impl<App: ApplicationLayer> Zeta<App> {
    /// The time of the next timer.
    pub fn next_timer(&self) -> (r: i64)
        ensures
            r == self@.next_timer(),
    {
        if self.resend_timer < self.timeout_timer {
            self.resend_timer
        } else {
            self.timeout_timer
        }
    }
}

impl<App: ApplicationLayer> Session<App> {
    /// The packet that carries the hello of the session with its answer to the challenge of the
    /// responder.
    fn hello_again(x1: &Vec<u8>, challenge: &[u8]) -> (r: Packet)
        requires
            x1@.len() >= 8,
        ensures
            r@ == hello_packet(x1@, challenge@),
    {
        let len: usize = x1.len();
        let c = u64_from_be_bytes(vstd::slice::slice_subrange(x1.as_slice(), len - 8, len));
        let mut payload = part(x1.as_slice(), 0, len);
        append(&mut payload, challenge);
        assert(payload@ =~= x1@ + challenge@);
        Packet(0, nonce(PACKET_TYPE_HANDSHAKE_HELLO, c), payload)
    }

    /// The packet to send again, where the other end has not answered it.
    fn resend(&mut self, settings: &Settings, current_time: i64) -> (r: Option<Packet>)
        requires
            old(self)@.wf(),
            settings.valid(),
            settings.reckons_from(current_time),
        ensures
            packet_view(r) == old(self)@.resent(),
            final(self)@ == old(self)@.after_resend(*settings, current_time),
            final(self)@.wf(),
            r matches Some(p) ==> p@.measured(),
    {
        self.zeta.resend_timer = current_time + settings.retry_interval_ms;
        match &self.zeta.beta {
            ZsspAutomata::A1 { x1, .. } => Some(
                Self::hello_again(x1, self.challenge.as_slice()),
            ),
            ZsspAutomata::A3 { x3 } => {
                let payload = part(x3.as_slice(), 0, x3.len());
                assert(payload@ =~= x3@);
                let kid: u32 = self.zeta.key_ref(true).send.kid.unwrap();
                Some(Packet(kid, nonce(PACKET_TYPE_HANDSHAKE_COMPLETION, 0), payload))
            },
            ZsspAutomata::S1 => {
                let c = self.zeta.send_counter;
                if c == u64::MAX {
                    return None;
                }
                self.zeta.send_counter = c + 1;
                let n = nonce(PACKET_TYPE_KEY_CONFIRM, c);
                let keys = self.zeta.key_ref(false);
                let c1 = seal_control::<App>(keys.send.kek.as_ref().unwrap(), &n);
                Some(Packet(keys.send.kid.unwrap(), n, c1))
            },
            ZsspAutomata::R1 { k1, counter, .. } => {
                let payload = part(k1.as_slice(), 0, k1.len());
                assert(payload@ =~= k1@);
                let kid: u32 = self.zeta.key_ref(false).send.kid.unwrap();
                Some(Packet(kid, nonce(PACKET_TYPE_REKEY_INIT, *counter), payload))
            },
            ZsspAutomata::R2 { k2, counter } => {
                let payload = part(k2.as_slice(), 0, k2.len());
                assert(payload@ =~= k2@);
                let kid: u32 = self.zeta.key_ref(false).send.kid.unwrap();
                Some(Packet(kid, nonce(PACKET_TYPE_REKEY_COMPLETE, *counter), payload))
            },
            _ => None,
        }
    }

    /// Does what the timers of the session call for: when it is to be looked at again, or `None`
    /// where it has expired, and the packet to send. A new key, if one is asked for, gets the id
    /// `kid_new`.
    pub fn process_timers(
        &mut self,
        app: &App,
        rng: &mut OsRng,
        s_secret: &App::KeyPair,
        kid_new: u32,
        current_time: i64,
    ) -> (r: (Option<i64>, Option<Packet>))
        requires
            old(self)@.wf(),
            kid_new != 0,
            app.settings_spec().valid(),
            app.settings_spec().reckons_from(current_time),
        ensures
            old(self)@.timers_processed(
                *app,
                *s_secret,
                kid_new,
                current_time,
                final(self)@,
                r.0,
                r.1,
            ),
            final(self)@.wf(),
            r.1 matches Some(p) ==> p@.measured(),
    {
        let ghost before = self@;
        let (is_null, is_s2) = match &self.zeta.beta {
            ZsspAutomata::Null => (true, false),
            ZsspAutomata::S2 => (false, true),
            _ => (false, false),
        };
        if is_null {
            return (None, None);
        }
        if self.zeta.timeout_timer <= current_time {
            if is_s2 && self.zeta.send_counter < u64::MAX {
                let cause = self.zeta.trans_s2_to_r1(app, rng, kid_new, s_secret, current_time);
                assert(before.zeta.rekey_offer_handled(
                    app.settings_spec(),
                    kid_new,
                    *s_secret,
                    current_time,
                    self@.zeta,
                    cause,
                ));
                if let Ok(k1) = cause {
                    return (Some(self.zeta.next_timer()), Some(k1));
                }
            }
            self.zeta.expire();
            return (None, None);
        }
        if self.zeta.resend_timer <= current_time {
            let settings = app.settings();
            let packet = self.resend(&settings, current_time);
            return (Some(self.zeta.next_timer()), packet);
        }
        (Some(self.zeta.next_timer()), None)
    }
}

} // verus!
