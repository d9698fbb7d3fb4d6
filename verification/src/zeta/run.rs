//! What holds of a session over any sequence of things that happen to it.

use vstd::prelude::*;

use crate::application::{ApplicationLayer, Settings};
use crate::proto::PACKET_TYPE_DATA;
use crate::result::{SendError, ZetaError};
use crate::wire::{law_nonce_carries, nonce_counter};
use crate::zeta::response::response_handled;
use crate::zeta::{Packet, ZetaView};

verus! {

/// Something that happens to a session, and what came of it.
pub enum ZetaStep<App: ApplicationLayer> {
    Response {
        app: App,
        app_after: App,
        kid: u32,
        c: u64,
        x2: Seq<u8>,
        s_secret: App::KeyPair,
        identity: Seq<u8>,
        current_time: i64,
        completed: Result<(Packet, bool), ZetaError>,
    },
    Confirmation {
        app: App,
        app_after: App,
        kid: u32,
        n: Seq<u8>,
        c1: Seq<u8>,
        current_time: i64,
        r: Result<Packet, ZetaError>,
    },
    Acknowledgement {
        app: App,
        kid: u32,
        n: Seq<u8>,
        c2: Seq<u8>,
        draw: u64,
        current_time: i64,
    },
    Refusal { kid: u32, n: Seq<u8>, d: Seq<u8> },
    RekeyOffer {
        app: App,
        kid_recv: u32,
        s_secret: App::KeyPair,
        current_time: i64,
        r: Result<Packet, ZetaError>,
    },
    Rekey {
        app: App,
        app_after: App,
        kid_recv: u32,
        s_secret: App::KeyPair,
        kid: u32,
        n: Seq<u8>,
        k1: Seq<u8>,
        current_time: i64,
        r: Result<Packet, ZetaError>,
    },
    RekeyAnswer {
        app: App,
        app_after: App,
        kid: u32,
        n: Seq<u8>,
        k2: Seq<u8>,
        current_time: i64,
        r: Result<Packet, ZetaError>,
    },
    Send { settings: Settings, payload: Seq<u8>, sent: Result<Packet, SendError> },
    Expire,
}

impl<App: ApplicationLayer> ZetaView<App> {
    /// `after` may be the session after `step`. Where the step takes a counter there is one left.
    pub open spec fn stepped(self, step: ZetaStep<App>, after: Self) -> bool {
        match step {
            ZetaStep::Response {
                app,
                app_after,
                kid,
                c,
                x2,
                s_secret,
                identity,
                current_time,
                completed,
            } => {
                response_handled(
                    app,
                    self,
                    kid,
                    c,
                    x2,
                    s_secret,
                    identity,
                    current_time,
                    after,
                    app_after,
                    completed,
                )
            },
            ZetaStep::Confirmation { app, app_after, kid, n, c1, current_time, r } => {
                &&& self.confirmation_checked(kid, n, c1) is Ok ==> self.send_counter < u64::MAX
                &&& self.confirmation_handled(
                    app,
                    kid,
                    n,
                    c1,
                    current_time,
                    after,
                    app_after,
                    r,
                )
            },
            ZetaStep::Acknowledgement { app, kid, n, c2, draw, current_time } => after
                == if self.acknowledgement_checked(kid, n, c2) is Ok {
                self.settled(app.settings_spec(), draw, current_time)
            } else {
                self
            },
            ZetaStep::Refusal { kid, n, d } => after == if self.rejection_checked(kid, n, d) is Ok {
                self.expired()
            } else {
                self
            },
            ZetaStep::RekeyOffer { app, kid_recv, s_secret, current_time, r } => {
                &&& self.beta is S2 ==> self.send_counter < u64::MAX
                &&& self.rekey_offer_handled(
                    app.settings_spec(),
                    kid_recv,
                    s_secret,
                    current_time,
                    after,
                    r,
                )
            },
            ZetaStep::Rekey {
                app,
                app_after,
                kid_recv,
                s_secret,
                kid,
                n,
                k1,
                current_time,
                r,
            } => {
                &&& self.rekey_read(s_secret, kid, n, k1) is Ok ==> self.send_counter < u64::MAX
                &&& self.rekey_handled(
                    app,
                    kid_recv,
                    s_secret,
                    kid,
                    n,
                    k1,
                    current_time,
                    after,
                    app_after,
                    r,
                )
            },
            ZetaStep::RekeyAnswer { app, app_after, kid, n, k2, current_time, r } => {
                &&& self.rekey_answer_read(kid, n, k2) is Ok ==> self.send_counter < u64::MAX
                &&& self.rekey_completed(
                    app,
                    kid,
                    n,
                    k2,
                    current_time,
                    after,
                    app_after,
                    r,
                )
            },
            ZetaStep::Send { settings, payload, sent } => {
                &&& self.can_send() ==> self.send_counter < u64::MAX
                &&& self.data_sent(settings, payload, after, sent)
            },
            ZetaStep::Expire => after == self.expired(),
        }
    }
}

/// `states` are states of a session, each of which comes from the one before it by a step.
pub open spec fn is_zeta_run<App: ApplicationLayer>(
    states: Seq<ZetaView<App>>,
    steps: Seq<ZetaStep<App>>,
) -> bool {
    &&& states.len() == steps.len() + 1
    &&& forall|k: int|
        0 <= k < steps.len() ==> (#[trigger] states[k]).stepped(steps[k], states[k + 1])
}

/// The counter of a session never falls.
pub proof fn law_counter_never_falls<App: ApplicationLayer>(
    states: Seq<ZetaView<App>>,
    steps: Seq<ZetaStep<App>>,
    i: int,
    j: int,
)
    requires
        is_zeta_run(states, steps),
        0 <= i <= j <= steps.len(),
    ensures
        states[i].send_counter <= states[j].send_counter,
    decreases j - i,
{
    if i < j {
        law_counter_never_falls(states, steps, i, j - 1);
        assert(states[j - 1].stepped(steps[j - 1], states[j]));
    }
}

/// The packets of a session that carry data have different nonces, and a later one has a greater
/// counter, whatever happens to the session in between. Each of them raises the counter of the
/// session by one.
pub proof fn law_data_nonces_grow<App: ApplicationLayer>(
    states: Seq<ZetaView<App>>,
    steps: Seq<ZetaStep<App>>,
    i: int,
    j: int,
    p1: Packet,
    p2: Packet,
)
    requires
        is_zeta_run(states, steps),
        0 <= i < j < steps.len(),
        steps[i] matches ZetaStep::Send { sent, .. } && sent == Ok::<Packet, SendError>(p1),
        steps[j] matches ZetaStep::Send { sent, .. } && sent == Ok::<Packet, SendError>(p2),
    ensures
        nonce_counter(p1@.nonce) < nonce_counter(p2@.nonce),
        p1@.nonce != p2@.nonce,
        states[i + 1].send_counter == states[i].send_counter + 1,
        states[j + 1].send_counter == states[j].send_counter + 1,
{
    assert(states[i].stepped(steps[i], states[i + 1]));
    assert(states[j].stepped(steps[j], states[j + 1]));
    law_counter_never_falls(states, steps, i + 1, j);
    law_nonce_carries(PACKET_TYPE_DATA, states[i].send_counter);
    law_nonce_carries(PACKET_TYPE_DATA, states[j].send_counter);
}

/// A session that has expired stays expired, whatever happens to it, and sends nothing.
pub proof fn law_expired_for_good<App: ApplicationLayer>(
    states: Seq<ZetaView<App>>,
    steps: Seq<ZetaStep<App>>,
    i: int,
    j: int,
)
    requires
        is_zeta_run(states, steps),
        0 <= i <= j <= steps.len(),
        states[i].beta is Null,
    ensures
        states[j].beta is Null,
        j < steps.len() ==> (steps[j] matches ZetaStep::Send { sent, .. } ==> sent == Err::<
            Packet,
            SendError,
        >(SendError::SessionExpired)),
    decreases j - i,
{
    if i < j {
        law_expired_for_good(states, steps, i, j - 1);
        assert(states[j - 1].stepped(steps[j - 1], states[j]));
    }
    if j < steps.len() {
        assert(states[j].stepped(steps[j], states[j + 1]));
    }
}

/// Once a key has been used up, by the use that is one too many, every later attempt to send is
/// refused, whatever happens to the session in between. Where a key is only near that, the
/// session asks for a new key at once, and before that it stays as it is but for its counter.
pub proof fn law_used_up_key<App: ApplicationLayer>(
    states: Seq<ZetaView<App>>,
    steps: Seq<ZetaStep<App>>,
    i: int,
    j: int,
    settings: Settings,
)
    requires
        is_zeta_run(states, steps),
        0 <= i < j <= steps.len(),
        states[i].can_send(),
        steps[i] matches ZetaStep::Send { settings: s, .. } && s == settings,
        settings.rekey_after_uses <= settings.expire_after_uses,
    ensures
        ({
            let uses = states[i].send_counter - states[i].key_creation_counter;
            let counted = ZetaView {
                send_counter: (states[i].send_counter + 1) as u64,
                ..states[i]
            };
            &&& uses >= settings.expire_after_uses ==> states[j].beta is Null
            &&& uses >= settings.expire_after_uses && j < steps.len() ==> (
            steps[j] matches ZetaStep::Send { sent, .. } ==> sent == Err::<Packet, SendError>(
                SendError::SessionExpired,
            ))
            &&& settings.rekey_after_uses <= uses < settings.expire_after_uses ==> states[i + 1]
                == (ZetaView { timeout_timer: i64::MIN, ..counted })
            &&& uses < settings.rekey_after_uses ==> states[i + 1] == counted
        }),
{
    assert(states[i].stepped(steps[i], states[i + 1]));
    if states[i].send_counter - states[i].key_creation_counter >= settings.expire_after_uses {
        law_expired_for_good(states, steps, i + 1, j);
    }
}

} // verus!
