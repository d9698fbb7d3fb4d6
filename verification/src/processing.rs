//! What each kind of packet, and each timer, does to a session of a context.

use vstd::prelude::*;

use crate::application::ApplicationLayer;
use crate::crypto::P384KeyPair;
use crate::proto::{
    AES_GCM_TAG_SIZE, COUNTER_WINDOW_MAX_OOO, COUNTER_WINDOW_MAX_SKIP_AHEAD, PACKET_TYPE_ACK,
    PACKET_TYPE_CHALLENGE, PACKET_TYPE_DATA, PACKET_TYPE_HANDSHAKE_COMPLETION,
    PACKET_TYPE_HANDSHAKE_HELLO, PACKET_TYPE_HANDSHAKE_RESPONSE, PACKET_TYPE_KEY_CONFIRM,
    PACKET_TYPE_REKEY_COMPLETE, PACKET_TYPE_REKEY_INIT, PACKET_TYPE_SESSION_REJECTED,
    SESSION_MAX_FRAGMENTS_OOO,
};
use crate::result::{is_error_of, FaultType, ReceiveError, SessionEvent, SessionHandle, ZetaError};
use crate::session::{Processed, SessionView};
use crate::window::{window_after, window_takes};
use crate::wire::{fragment_header, nonce_counter, nonce_type, unprotected};
use crate::zeta::completion::packet_view;
use crate::zeta::outcomes::{is_packet, law_settled, same_ends};
use crate::zeta::response::response_handled;
use crate::zeta::sealed::{control_authentic, control_tag};
use crate::zeta::{BetaView, Packet, ZetaView};

verus! {

/// A window takes every counter that is not behind the last one of its slot, and not so far ahead
/// that the sender would have had to skip: a window that has seen nothing takes the first counters,
/// and one that has taken a counter takes each of those that follow it.
pub proof fn law_window_takes(slots: Seq<u64>, counter: u64)
    requires
        slots.len() == COUNTER_WINDOW_MAX_OOO,
        counter < u64::MAX,
    ensures
        ({
            let last = slots[counter as int % COUNTER_WINDOW_MAX_OOO as int];
            window_takes(slots, counter) <==> last <= counter < last
                + COUNTER_WINDOW_MAX_SKIP_AHEAD
        }),
{
}

/// Counters may come in any order: of a window that has taken only counters up to some largest one,
/// a counter that it has not taken is taken as long as it is not older than the size of the window.
/// `taken` are the counters that were taken, each of which was recorded in its slot.
pub proof fn law_window_out_of_order(slots: Seq<u64>, taken: Set<int>, largest: int, counter: u64)
    requires
        slots.len() == COUNTER_WINDOW_MAX_OOO,
        counter < u64::MAX,
        0 <= largest < COUNTER_WINDOW_MAX_SKIP_AHEAD,
        forall|c: int| #[trigger] taken.contains(c) ==> 0 <= c <= largest,
        forall|k: int|
            0 <= k < slots.len() && (#[trigger] slots[k]) > 0 ==> (slots[k] - 1)
                % COUNTER_WINDOW_MAX_OOO as int == k && taken.contains(slots[k] - 1),
        !taken.contains(counter as int),
        largest - COUNTER_WINDOW_MAX_OOO < counter <= largest,
    ensures
        window_takes(slots, counter),
{
    let k = counter as int % COUNTER_WINDOW_MAX_OOO as int;
    if slots[k] > 0 {
        let last = slots[k] - 1;
        assert(taken.contains(last));
        assert(last % COUNTER_WINDOW_MAX_OOO as int == k);
        assert(last <= largest);
        assert(last != counter);
        assert(last < counter);
    }
}

/// Recording a counter in a window changes the slot of that counter, which holds what follows it,
/// and no other.
pub proof fn law_window_records(slots: Seq<u64>, counter: u64)
    requires
        slots.len() == COUNTER_WINDOW_MAX_OOO,
        counter < u64::MAX,
    ensures
        ({
            let slot = counter as int % COUNTER_WINDOW_MAX_OOO as int;
            let after = window_after(slots, counter);
            &&& after.len() == slots.len()
            &&& after[slot] == counter + 1
            &&& forall|k: int|
                0 <= k < slots.len() && k != slot ==> #[trigger] after[k] == slots[k]
        }),
{
}

/// Which packets a session looks at. A response is looked at while the session waits for one; every
/// packet with a counter of the session, from the key confirmation to the refusal and data, is
/// looked at in every stage before the session has expired, where its counter is taken; and no
/// other is.
pub proof fn law_looked_at_where<App: ApplicationLayer>(
    session: SessionView<App>,
    packet_type: u8,
    counter: u64,
)
    ensures
        packet_type == PACKET_TYPE_HANDSHAKE_RESPONSE ==> (session.fragment_refused(
            packet_type,
            counter,
        ) is None <==> session.zeta.beta is A1 && counter < COUNTER_WINDOW_MAX_SKIP_AHEAD),
        packet_type == PACKET_TYPE_DATA || packet_type == PACKET_TYPE_KEY_CONFIRM || packet_type
            == PACKET_TYPE_ACK || packet_type == PACKET_TYPE_REKEY_INIT || packet_type
            == PACKET_TYPE_REKEY_COMPLETE || packet_type == PACKET_TYPE_SESSION_REJECTED ==> (
        session.fragment_refused(packet_type, counter) is None <==> !(session.zeta.beta is Null)
            && window_takes(session.window, counter)),
        packet_type == PACKET_TYPE_HANDSHAKE_HELLO || packet_type == PACKET_TYPE_CHALLENGE
            || packet_type == PACKET_TYPE_HANDSHAKE_COMPLETION || packet_type > PACKET_TYPE_DATA
            && packet_type > PACKET_TYPE_SESSION_REJECTED ==> session.fragment_refused(
            packet_type,
            counter,
        ) is Some,
{
}

/// A fragment changes nothing of a session but the fragments that it keeps, and of those only the
/// ones with the remainder of its own counter: packets whose fragments come mixed up with those of
/// others are put together all the same.
pub proof fn law_fragment_keeps_to_itself<App: ApplicationLayer>(
    session: SessionView<App>,
    fragment: Seq<u8>,
)
    requires
        session.wf(),
    ensures
        ({
            let (after, taken) = session.fragment_taken(fragment);
            let f = unprotected::<App>(session.zeta.hk_recv, fragment);
            &&& after == (SessionView { defrag: after.defrag, ..session })
            &&& after.defrag.len() == session.defrag.len()
            &&& taken is Err ==> after == session
            &&& fragment_header(f) is None ==> after == session && taken is Err
            &&& fragment_header(f) matches Some((no, count, n)) ==> forall|k: int|
                0 <= k < session.defrag.len() && k != nonce_counter(n) as int
                    % SESSION_MAX_FRAGMENTS_OOO as int ==> #[trigger] after.defrag[k]
                    == session.defrag[k]
        }),
{
}

/// How a context tells why a packet was not taken: one that is not authentic failed authentication,
/// and no well-behaved peer sends one; one that does not fit the stage is out of sequence, which
/// can happen between well-behaved peers; an error of storage and a refusal are told as they are.
pub proof fn law_errors_told(
    e: ReceiveError,
    cause: ZetaError,
    session: Option<SessionHandle>,
    auth: u32,
    stage: u32,
)
    requires
        is_error_of(e, cause, session, auth, stage),
    ensures
        match cause {
            ZetaError::FailedAuthentication => e matches ReceiveError::ByzantineFault(f) && f.error
                == FaultType::FailedAuth && f.unnatural && f.session == session
                && !f.caused_expiration,
            ZetaError::OutOfSequence => e matches ReceiveError::ByzantineFault(f) && f.error
                == FaultType::OutOfSequence && !f.unnatural && f.session == session
                && !f.caused_expiration,
            ZetaError::RatchetIoError(io) => e == ReceiveError::StorageError(io),
            ZetaError::Rejected => e == ReceiveError::Rejected,
        },
{
}

/// A session whose counters are used up takes no packet that it would have to answer: one that it
/// would have taken is refused because the key has come to the end of its life, and nothing
/// changes.
pub proof fn law_key_used_up<App: ApplicationLayer>(
    app: App,
    before: SessionView<App>,
    s_secret: App::KeyPair,
    session: SessionHandle,
    kid: u32,
    kid_new: u32,
    n: Seq<u8>,
    packet: Seq<u8>,
    current_time: i64,
    after: SessionView<App>,
    app_after: App,
    r: Result<Processed, ReceiveError>,
)
    requires
        nonce_type(n) == PACKET_TYPE_KEY_CONFIRM || nonce_type(n) == PACKET_TYPE_REKEY_INIT
            || nonce_type(n) == PACKET_TYPE_REKEY_COMPLETE,
        before.zeta.send_counter == u64::MAX,
        before.packet_processed(
            app,
            s_secret,
            session,
            kid,
            kid_new,
            n,
            packet,
            current_time,
            after,
            app_after,
            r,
        ),
    ensures
        after == before,
        app_after == app,
        r is Err,
        (nonce_type(n) == PACKET_TYPE_KEY_CONFIRM && before.zeta.confirmation_checked(
            kid,
            n,
            packet,
        ) is Ok) || (nonce_type(n) == PACKET_TYPE_REKEY_INIT && before.zeta.rekey_read(
            s_secret,
            kid,
            n,
            packet,
        ) is Ok) || (nonce_type(n) == PACKET_TYPE_REKEY_COMPLETE && before.zeta.rekey_answer_read(
            kid,
            n,
            packet,
        ) is Ok) ==> r == Err::<Processed, ReceiveError>(
            ReceiveError::MaxKeyLifetimeExceeded(session),
        ),
{
}

/// Whatever comes of a packet, a session keeps its identity, its answer to a challenge, and the
/// fragments of other packets. A packet that is taken has its counter recorded, and one that is not
/// leaves every counter as it was; the response to a hello has no counter of the session.
pub proof fn law_packet_recorded<App: ApplicationLayer>(
    app: App,
    before: SessionView<App>,
    s_secret: App::KeyPair,
    session: SessionHandle,
    kid: u32,
    kid_new: u32,
    n: Seq<u8>,
    packet: Seq<u8>,
    current_time: i64,
    after: SessionView<App>,
    app_after: App,
    r: Result<Processed, ReceiveError>,
)
    requires
        before.wf(),
        nonce_counter(n) < u64::MAX,
        before.packet_processed(
            app,
            s_secret,
            session,
            kid,
            kid_new,
            n,
            packet,
            current_time,
            after,
            app_after,
            r,
        ),
    ensures
        after.identity == before.identity,
        after.challenge == before.challenge,
        after.defrag == before.defrag,
        r is Err || nonce_type(n) == PACKET_TYPE_HANDSHAKE_RESPONSE ==> after.window
            == before.window,
        r is Ok && nonce_type(n) != PACKET_TYPE_HANDSHAKE_RESPONSE ==> {
            let slot = nonce_counter(n) as int % COUNTER_WINDOW_MAX_OOO as int;
            &&& after.window[slot] == nonce_counter(n) + 1
            &&& forall|k: int|
                0 <= k < COUNTER_WINDOW_MAX_OOO && k != slot ==> #[trigger] after.window[k]
                    == before.window[k]
        },
{
}

/// Data leaves the session as it was, and the application is asked for nothing. What comes out of
/// it is the data, where it is authentic, and nothing is answered.
pub proof fn law_data_handled<App: ApplicationLayer>(
    app: App,
    before: SessionView<App>,
    s_secret: App::KeyPair,
    session: SessionHandle,
    kid: u32,
    kid_new: u32,
    n: Seq<u8>,
    packet: Seq<u8>,
    current_time: i64,
    after: SessionView<App>,
    app_after: App,
    r: Result<Processed, ReceiveError>,
)
    requires
        nonce_type(n) == PACKET_TYPE_DATA,
        before.packet_processed(
            app,
            s_secret,
            session,
            kid,
            kid_new,
            n,
            packet,
            current_time,
            after,
            app_after,
            r,
        ),
    ensures
        after.zeta == before.zeta,
        app_after == app,
        r is Ok <==> before.zeta.received(kid, n, packet) is Ok,
        r matches Ok(p) ==> {
            &&& p.event == SessionEvent::Data
            &&& p.reply is None
            &&& before.zeta.received(kid, n, packet) matches Ok(d)
            &&& p.data@ == d.subrange(0, d.len() - AES_GCM_TAG_SIZE)
        },
        r is Err ==> after == before,
{
}

/// The response to a hello is handled as such. The completion that it leads to is the answer, and
/// the application learns from the event whether the ratchet key was downgraded.
pub proof fn law_response_handled_as<App: ApplicationLayer>(
    app: App,
    before: SessionView<App>,
    s_secret: App::KeyPair,
    session: SessionHandle,
    kid: u32,
    kid_new: u32,
    n: Seq<u8>,
    packet: Seq<u8>,
    current_time: i64,
    after: SessionView<App>,
    app_after: App,
    r: Result<Processed, ReceiveError>,
)
    requires
        nonce_type(n) == PACKET_TYPE_HANDSHAKE_RESPONSE,
        before.packet_processed(
            app,
            s_secret,
            session,
            kid,
            kid_new,
            n,
            packet,
            current_time,
            after,
            app_after,
            r,
        ),
    ensures
        exists|cause: Result<(Packet, bool), ZetaError>|
            {
                &&& #[trigger] response_handled(
                    app,
                    before.zeta,
                    kid,
                    nonce_counter(n),
                    packet,
                    s_secret,
                    before.identity,
                    current_time,
                    after.zeta,
                    app_after,
                    cause,
                )
                &&& r is Ok <==> cause is Ok
                &&& r matches Ok(p) ==> {
                    &&& cause matches Ok((x3, downgraded))
                    &&& packet_view(p.reply) == Some(x3@)
                    &&& p.data@.len() == 0
                    &&& downgraded ==> p.event == SessionEvent::DowngradedRatchetKey
                    &&& !downgraded ==> p.event == SessionEvent::Control
                }
            },
{
}

/// A key confirmation is handled as such. The acknowledgement is the answer, and the application
/// learns that a session is established when its first key is confirmed, and not again.
pub proof fn law_confirmation_handled_as<App: ApplicationLayer>(
    app: App,
    before: SessionView<App>,
    s_secret: App::KeyPair,
    session: SessionHandle,
    kid: u32,
    kid_new: u32,
    n: Seq<u8>,
    packet: Seq<u8>,
    current_time: i64,
    after: SessionView<App>,
    app_after: App,
    r: Result<Processed, ReceiveError>,
)
    requires
        nonce_type(n) == PACKET_TYPE_KEY_CONFIRM,
        before.zeta.send_counter < u64::MAX,
        before.packet_processed(
            app,
            s_secret,
            session,
            kid,
            kid_new,
            n,
            packet,
            current_time,
            after,
            app_after,
            r,
        ),
    ensures
        exists|cause: Result<Packet, ZetaError>|
            {
                &&& #[trigger] before.zeta.confirmation_handled(
                    app,
                    kid,
                    n,
                    packet,
                    current_time,
                    after.zeta,
                    app_after,
                    cause,
                )
                &&& r is Ok <==> cause is Ok
                &&& r matches Ok(p) ==> {
                    &&& cause matches Ok(c2)
                    &&& packet_view(p.reply) == Some(c2@)
                    &&& p.data@.len() == 0
                    &&& before.zeta.beta is A3 && before.zeta.key(true).recv.kid == Some(kid)
                        ==> p.event == SessionEvent::Established
                    &&& !(before.zeta.beta is A3) ==> p.event == SessionEvent::Control
                }
            },
{
    let (zeta, cause) = choose|zeta: ZetaView<App>, cause: Result<Packet, ZetaError>|
        {
            &&& #[trigger] before.zeta.confirmation_handled(
                app,
                kid,
                n,
                packet,
                current_time,
                zeta,
                app_after,
                cause,
            )
            &&& before.answered(
                session,
                nonce_counter(n),
                zeta,
                cause,
                if before.zeta.beta is A3 && zeta.beta is S2 {
                    SessionEvent::Established
                } else {
                    SessionEvent::Control
                },
                crate::result::FAULT_CONFIRMATION_AUTH,
                crate::result::FAULT_CONFIRMATION_STAGE,
                after,
                r,
            )
        };
    assert(after.zeta == zeta);
    assert(before.zeta.confirmation_handled(
        app,
        kid,
        n,
        packet,
        current_time,
        after.zeta,
        app_after,
        cause,
    ));
}

/// An acknowledgement settles the session exactly where it has not been acknowledged yet, and the
/// acknowledgement is authentic under its current key and came to the id of that key. From then on
/// the session asks for a new key at a time that lies less than the bound on the random time from
/// now. Nothing is answered, and the application is asked for nothing.
pub proof fn law_acknowledgement_handled_as<App: ApplicationLayer>(
    app: App,
    before: SessionView<App>,
    s_secret: App::KeyPair,
    session: SessionHandle,
    kid: u32,
    kid_new: u32,
    n: Seq<u8>,
    packet: Seq<u8>,
    current_time: i64,
    after: SessionView<App>,
    app_after: App,
    r: Result<Processed, ReceiveError>,
)
    requires
        nonce_type(n) == PACKET_TYPE_ACK,
        before.wf(),
        app.settings_spec().valid(),
        app.settings_spec().reckons_from(current_time),
        before.packet_processed(
            app,
            s_secret,
            session,
            kid,
            kid_new,
            n,
            packet,
            current_time,
            after,
            app_after,
            r,
        ),
    ensures
        app_after == app,
        r is Ok <==> before.zeta.beta is S1 && before.zeta.key(false).recv.kid == Some(kid)
            && packet.len() == AES_GCM_TAG_SIZE && control_authentic::<App>(
            before.zeta.key(false).recv.kek->0,
            n,
            packet,
        ),
        r is Err ==> after == before,
        r matches Ok(p) ==> {
            let max = app.settings_spec().rekey_after_time_max_jitter_ms;
            &&& p.event == SessionEvent::Control
            &&& p.reply is None
            &&& p.data@.len() == 0
            &&& after.zeta.beta is S2
            &&& current_time - max < after.zeta.timeout_timer < current_time + max
            &&& after.zeta.resend_timer == i64::MAX
            &&& same_ends(after.zeta, before.zeta)
            &&& after.zeta.keys == before.zeta.keys
            &&& after.zeta.key_index == before.zeta.key_index
            &&& after.zeta.ratchet_states == before.zeta.ratchet_states
            &&& after.zeta.send_counter == before.zeta.send_counter
            &&& after.zeta.key_creation_counter == before.zeta.key_creation_counter
        },
{
    if r is Ok {
        let cause = before.zeta.acknowledgement_checked(kid, n, packet);
        let draw = choose|draw: u64|
            before.unanswered(
                session,
                nonce_counter(n),
                #[trigger] before.zeta.settled(app.settings_spec(), draw, current_time),
                cause,
                SessionEvent::Control,
                crate::result::FAULT_ACKNOWLEDGEMENT_AUTH,
                crate::result::FAULT_ACKNOWLEDGEMENT_STAGE,
                after,
                r,
            );
        law_settled(before.zeta, app.settings_spec(), draw, current_time);
    }
}

/// The offer of a new key is handled as such, and so is the answer to one. What they lead to is the
/// answer.
pub proof fn law_rekeying_handled_as<App: ApplicationLayer>(
    app: App,
    before: SessionView<App>,
    s_secret: App::KeyPair,
    session: SessionHandle,
    kid: u32,
    kid_new: u32,
    n: Seq<u8>,
    packet: Seq<u8>,
    current_time: i64,
    after: SessionView<App>,
    app_after: App,
    r: Result<Processed, ReceiveError>,
)
    requires
        nonce_type(n) == PACKET_TYPE_REKEY_INIT || nonce_type(n) == PACKET_TYPE_REKEY_COMPLETE,
        before.zeta.send_counter < u64::MAX,
        before.packet_processed(
            app,
            s_secret,
            session,
            kid,
            kid_new,
            n,
            packet,
            current_time,
            after,
            app_after,
            r,
        ),
    ensures
        nonce_type(n) == PACKET_TYPE_REKEY_INIT ==> exists|cause: Result<Packet, ZetaError>|
            {
                &&& #[trigger] before.zeta.rekey_handled(
                    app,
                    kid_new,
                    s_secret,
                    kid,
                    n,
                    packet,
                    current_time,
                    after.zeta,
                    app_after,
                    cause,
                )
                &&& r is Ok <==> cause is Ok
                &&& r matches Ok(p) ==> cause matches Ok(k2) && packet_view(p.reply) == Some(k2@)
            },
        nonce_type(n) == PACKET_TYPE_REKEY_COMPLETE ==> exists|cause: Result<Packet, ZetaError>|
            {
                &&& #[trigger] before.zeta.rekey_completed(
                    app,
                    kid,
                    n,
                    packet,
                    current_time,
                    after.zeta,
                    app_after,
                    cause,
                )
                &&& r is Ok <==> cause is Ok
                &&& r matches Ok(p) ==> cause matches Ok(c1) && packet_view(p.reply) == Some(c1@)
            },
        r matches Ok(p) ==> p.event == SessionEvent::Control && p.data@.len() == 0,
{
}

/// A refusal ends the session exactly where it waits for the confirmation of its first key, and the
/// refusal is authentic under that key and came to its id. Nothing is answered, and the application
/// is asked for nothing.
pub proof fn law_refusal_handled_as<App: ApplicationLayer>(
    app: App,
    before: SessionView<App>,
    s_secret: App::KeyPair,
    session: SessionHandle,
    kid: u32,
    kid_new: u32,
    n: Seq<u8>,
    packet: Seq<u8>,
    current_time: i64,
    after: SessionView<App>,
    app_after: App,
    r: Result<Processed, ReceiveError>,
)
    requires
        nonce_type(n) == PACKET_TYPE_SESSION_REJECTED,
        before.wf(),
        before.packet_processed(
            app,
            s_secret,
            session,
            kid,
            kid_new,
            n,
            packet,
            current_time,
            after,
            app_after,
            r,
        ),
    ensures
        app_after == app,
        r is Ok <==> before.zeta.beta is A3 && before.zeta.key(true).recv.kid == Some(kid)
            && packet.len() == AES_GCM_TAG_SIZE && control_authentic::<App>(
            before.zeta.key(true).recv.kek->0,
            n,
            packet,
        ),
        r is Err ==> after == before,
        r matches Ok(p) ==> {
            &&& p.event == SessionEvent::Rejected
            &&& p.reply is None
            &&& p.data@.len() == 0
            &&& after.zeta == (ZetaView { beta: BetaView::Null, ..before.zeta })
        },
{
}

/// What the timers of a session do. Before either has run out nothing happens, and the session is
/// to be looked at when the first one does.
pub proof fn law_timers_wait<App: ApplicationLayer>(
    app: App,
    before: SessionView<App>,
    s_secret: App::KeyPair,
    kid_new: u32,
    current_time: i64,
    after: SessionView<App>,
    next: Option<i64>,
    packet: Option<Packet>,
)
    requires
        before.timers_processed(app, s_secret, kid_new, current_time, after, next, packet),
        !(before.zeta.beta is Null),
        before.zeta.timeout_timer > current_time,
        before.zeta.resend_timer > current_time,
    ensures
        after == before,
        packet is None,
        next matches Some(timer) && timer <= before.zeta.resend_timer && timer
            <= before.zeta.timeout_timer && (timer == before.zeta.resend_timer || timer
            == before.zeta.timeout_timer),
{
}

/// When the time to send again has come, and the session has not run out of time, the packet that
/// the other end has not answered goes out again: the hello, with the answer to the challenge, to
/// no id; the completion; a key confirmation under the next counter; or the offer of a new key or
/// the answer to one, as it was. It will go out again after the same while. Nothing else changes.
pub proof fn law_timers_resend<App: ApplicationLayer>(
    app: App,
    before: SessionView<App>,
    s_secret: App::KeyPair,
    kid_new: u32,
    current_time: i64,
    after: SessionView<App>,
    next: Option<i64>,
    packet: Option<Packet>,
)
    requires
        before.wf(),
        app.settings_spec().valid(),
        app.settings_spec().reckons_from(current_time),
        before.timers_processed(app, s_secret, kid_new, current_time, after, next, packet),
        before.zeta.resend_timer <= current_time < before.zeta.timeout_timer,
    ensures
        before.zeta.beta is Null ==> packet is None && after == before && next is None,
        before.zeta.beta matches BetaView::A1 { x1, .. } ==> packet matches Some(p) && p@.kid == 0
            && p@.nonce[3] == PACKET_TYPE_HANDSHAKE_HELLO && p@.payload == x1 + before.challenge,
        before.zeta.beta matches BetaView::A3 { x3 } ==> packet matches Some(p) && is_packet(
            p@,
            before.zeta.key(true).send.kid,
            PACKET_TYPE_HANDSHAKE_COMPLETION,
            0,
        ) && p@.payload == x3,
        before.zeta.beta is S1 && before.zeta.send_counter < u64::MAX ==> (packet matches Some(p)
            && is_packet(
            p@,
            before.zeta.key(false).send.kid,
            PACKET_TYPE_KEY_CONFIRM,
            before.zeta.send_counter,
        ) && p@.payload == control_tag::<App>(before.zeta.key(false).send.kek->0, p@.nonce)),
        before.zeta.beta matches BetaView::R1 { k1, counter, .. } ==> packet matches Some(p)
            && is_packet(
            p@,
            before.zeta.key(false).send.kid,
            PACKET_TYPE_REKEY_INIT,
            counter,
        ) && p@.payload == k1,
        before.zeta.beta matches BetaView::R2 { k2, counter } ==> packet matches Some(p)
            && is_packet(
            p@,
            before.zeta.key(false).send.kid,
            PACKET_TYPE_REKEY_COMPLETE,
            counter,
        ) && p@.payload == k2,
        before.zeta.beta is S2 ==> packet is None,
        !(before.zeta.beta is Null) ==> {
            &&& after == (SessionView { zeta: after.zeta, ..before })
            &&& after.zeta.resend_timer == current_time + app.settings_spec().retry_interval_ms
            &&& after.zeta.timeout_timer == before.zeta.timeout_timer
            &&& after.zeta.beta == before.zeta.beta
            &&& same_ends(after.zeta, before.zeta)
            &&& after.zeta.keys == before.zeta.keys
            &&& after.zeta.key_index == before.zeta.key_index
            &&& after.zeta.ratchet_states == before.zeta.ratchet_states
            &&& after.zeta.key_creation_counter == before.zeta.key_creation_counter
            &&& after.zeta.send_counter == before.zeta.send_counter + if before.zeta.beta is S1
                && before.zeta.send_counter < u64::MAX {
                1int
            } else {
                0
            }
            &&& next matches Some(timer)
            &&& timer <= after.zeta.resend_timer && timer <= after.zeta.timeout_timer
        },
{
}

/// When a session has run out of time it expires, and nothing is sent, except where its key is
/// settled: there that is the time to ask for a new key, and the offer goes out.
pub proof fn law_timers_run_out<App: ApplicationLayer>(
    app: App,
    before: SessionView<App>,
    s_secret: App::KeyPair,
    kid_new: u32,
    current_time: i64,
    after: SessionView<App>,
    next: Option<i64>,
    packet: Option<Packet>,
)
    requires
        before.wf(),
        kid_new != 0,
        app.settings_spec().valid(),
        app.settings_spec().reckons_from(current_time),
        before.timers_processed(app, s_secret, kid_new, current_time, after, next, packet),
        before.zeta.timeout_timer <= current_time,
    ensures
        !(before.zeta.beta is S2) ==> after.zeta == (ZetaView {
            beta: BetaView::Null,
            ..before.zeta
        }) && next is None && packet is None,
        before.zeta.beta is S2 && before.zeta.send_counter < u64::MAX && s_secret.shared(
            before.zeta.s_remote,
        ) is Some && (forall|e_secret: App::KeyPair| #[trigger]
            e_secret.may_generate() ==> e_secret.shared(before.zeta.s_remote) is Some) ==> {
            &&& packet matches Some(p)
            &&& is_packet(
                p@,
                before.zeta.key(false).send.kid,
                PACKET_TYPE_REKEY_INIT,
                before.zeta.send_counter,
            )
            &&& after.zeta.beta is R1
            &&& after.zeta.key(false) == before.zeta.key(false)
            &&& after.zeta.key(true).recv.kid == Some(kid_new)
            &&& after.zeta.send_counter == before.zeta.send_counter + 1
            &&& after.zeta.ratchet_states == before.zeta.ratchet_states
            &&& same_ends(after.zeta, before.zeta)
            &&& after.zeta.timeout_timer == current_time
                + app.settings_spec().expiration_timeout_ms
            &&& after.zeta.resend_timer == current_time + app.settings_spec().retry_interval_ms
            &&& next is Some
        },
        before.zeta.beta is S2 && packet is None ==> after.zeta == (ZetaView {
            beta: BetaView::Null,
            ..before.zeta
        }) && next is None,
        after == (SessionView { zeta: after.zeta, ..before }),
{
}

} // verus!
