//! What each thing that happens to a session leaves behind: its stage, its keys, its counters, its
//! timers, what was stored, and what is sent.

use vstd::prelude::*;

use crate::application::{ApplicationLayer, RatchetStatesView, Settings};
use crate::proto::{
    AES_GCM_TAG_SIZE, PACKET_TYPE_ACK, PACKET_TYPE_DATA, PACKET_TYPE_KEY_CONFIRM,
    PACKET_TYPE_REKEY_COMPLETE, PACKET_TYPE_REKEY_INIT,
};
use crate::result::{SendError, ZetaError};
use crate::zeta::confirm::jitter_spec;

use crate::zeta::sealed::{control_authentic, control_tag, packet_opened, packet_sealed};
use crate::zeta::{nonce_spec, BetaView, Packet, PacketView, ZetaView};

verus! {

/// The two ends of a session stay who they are: the peer, the data of the application, the part in
/// the handshake, and the keys that headers are protected with.
pub open spec fn same_ends<App: ApplicationLayer>(a: ZetaView<App>, b: ZetaView<App>) -> bool {
    &&& a.application_data == b.application_data
    &&& a.was_bob == b.was_bob
    &&& a.s_remote == b.s_remote
    &&& a.hk_send == b.hk_send
    &&& a.hk_recv == b.hk_recv
}

/// The length of a chain of ratchet keys that is longer by one. It stops at its largest value.
pub open spec fn longer(chain_len: u64) -> int {
    if chain_len < u64::MAX {
        chain_len + 1
    } else {
        chain_len as int
    }
}

/// The packet is one of this type to `kid` with this counter.
pub open spec fn is_packet(packet: PacketView, kid: Option<u32>, packet_type: u8, counter: u64) -> bool {
    &&& Some(packet.kid) == kid
    &&& packet.nonce == nonce_spec(packet_type, counter)
}

/// The random time by which a rekeying is put off is less than its bound, either way.
pub proof fn law_jitter_bounded(draw: u64, max: i64)
    requires
        max > 0,
    ensures
        -max < jitter_spec(draw, max) < max,
{
}

/// Once its key is confirmed or acknowledged, a session asks for a new one at a time that lies less
/// than the bound on the random time from now, whatever stage it was in, and sends nothing again
/// until then. Nothing else about it changes.
pub proof fn law_settled<App: ApplicationLayer>(
    zeta: ZetaView<App>,
    settings: Settings,
    draw: u64,
    current_time: i64,
)
    requires
        settings.valid(),
        settings.reckons_from(current_time),
    ensures
        ({
            let after = zeta.settled(settings, draw, current_time);
            let max = settings.rekey_after_time_max_jitter_ms;
            &&& after.beta is S2
            &&& current_time - max < after.timeout_timer < current_time + max
            &&& after.resend_timer == i64::MAX
            &&& same_ends(after, zeta)
            &&& after.keys == zeta.keys
            &&& after.key_index == zeta.key_index
            &&& after.ratchet_states == zeta.ratchet_states
            &&& after.send_counter == zeta.send_counter
            &&& after.key_creation_counter == zeta.key_creation_counter
        }),
{
    law_jitter_bounded(draw, settings.rekey_after_time_max_jitter_ms);
}

/// The random time takes every value that is less than its bound, either way.
pub proof fn law_settles_anywhere<App: ApplicationLayer>(
    zeta: ZetaView<App>,
    settings: Settings,
    current_time: i64,
    timer: i64,
)
    requires
        settings.valid(),
        settings.reckons_from(current_time),
        current_time - settings.rekey_after_time_max_jitter_ms < timer < current_time
            + settings.rekey_after_time_max_jitter_ms,
    ensures
        exists|draw: u64| #[trigger]
            zeta.settled(settings, draw, current_time).timeout_timer == timer,
{
    let max = settings.rekey_after_time_max_jitter_ms;
    let d = timer - current_time;
    let draw: u64 = if d >= 0 {
        d as u64
    } else {
        (0x1_0000_0000_0000_0000 + d) as u64
    };
    if d >= 0 {
        vstd::arithmetic::div_mod::lemma_small_mod(d as nat, max as nat);
    } else {
        vstd::arithmetic::div_mod::lemma_small_mod((-d) as nat, max as nat);
    }
    assert(zeta.settled(settings, draw, current_time).timeout_timer == timer);
}

/// A session takes an acknowledgement exactly where it has not been acknowledged yet, and the
/// acknowledgement is authentic under its current key and came to the id of that key.
pub proof fn law_acknowledgement_taken_where<App: ApplicationLayer>(
    zeta: ZetaView<App>,
    kid: u32,
    n: Seq<u8>,
    c2: Seq<u8>,
)
    requires
        zeta.wf(),
    ensures
        zeta.acknowledgement_checked(kid, n, c2) is Ok <==> zeta.beta is S1 && zeta.key(
            false,
        ).recv.kid == Some(kid) && c2.len() == AES_GCM_TAG_SIZE && control_authentic::<App>(
            zeta.key(false).recv.kek->0,
            n,
            c2,
        ),
{
}

/// What comes of a key confirmation that is taken. The keys that were to follow, if they are the
/// ones confirmed and the session waited for that, become the current ones; of the ratchet states
/// only the newest is left, in memory and, where there was another, in storage; and the session
/// settles. Any other confirmation that is authentic leaves the session as it was. Either way it is
/// acknowledged, under the current key and the next counter.
pub proof fn law_confirmed<App: ApplicationLayer>(
    app: App,
    zeta: ZetaView<App>,
    kid: u32,
    n: Seq<u8>,
    c1: Seq<u8>,
    current_time: i64,
    after: ZetaView<App>,
    app_after: App,
    r: Result<Packet, ZetaError>,
)
    requires
        zeta.wf(),
        zeta.send_counter < u64::MAX,
        app.settings_spec().valid(),
        app.settings_spec().reckons_from(current_time),
        zeta.confirmation_handled(app, kid, n, c1, current_time, after, app_after, r),
        r is Ok,
    ensures
        same_ends(after, zeta),
        after.send_counter == zeta.send_counter + 1,
        after.key_creation_counter == zeta.key_creation_counter,
        after.ratchet_states.first == zeta.ratchet_states.first,
        r matches Ok(p) && is_packet(
            p@,
            after.key(false).send.kid,
            PACKET_TYPE_ACK,
            zeta.send_counter,
        ) && p@.payload == control_tag::<App>(after.key(false).send.kek->0, p@.nonce),
        if zeta.key(true).recv.kid == Some(kid) && (zeta.beta is A3 || zeta.beta is R2) {
            let max = app.settings_spec().rekey_after_time_max_jitter_ms;
            &&& after.beta is S2
            &&& after.key(false) == zeta.key(true)
            &&& after.key(true) == zeta.key(false)
            &&& after.ratchet_states.second is None
            &&& current_time - max < after.timeout_timer < current_time + max
            &&& after.resend_timer == i64::MAX
            &&& if zeta.ratchet_states.second is Some {
                exists|stored: RatchetStatesView, saved: Result<(), std::io::Error>|
                    {
                        &&& #[trigger] app.may_save_ratchet_state(
                            zeta.s_remote,
                            zeta.application_data,
                            zeta.ratchet_states,
                            stored,
                            saved,
                            app_after,
                        )
                        &&& saved is Ok
                        &&& stored.first == after.ratchet_states.first
                        &&& stored.second is None
                    }
            } else {
                app_after == app
            }
        } else {
            &&& after.beta == zeta.beta
            &&& after.keys == zeta.keys
            &&& after.key_index == zeta.key_index
            &&& after.ratchet_states == zeta.ratchet_states
            &&& after.timeout_timer == zeta.timeout_timer
            &&& after.resend_timer == zeta.resend_timer
            &&& app_after == app
        },
{
    if zeta.key(true).recv.kid == Some(kid) && (zeta.beta is A3 || zeta.beta is R2) {
        let draw = choose|draw: u64| #[trigger]
            zeta.switched().settled(app.settings_spec(), draw, current_time).acknowledges(after, r);
        law_settled(zeta.switched(), app.settings_spec(), draw, current_time);
    }
}

/// A key confirmation that is authentic is taken, from whichever stage, where the storage of the
/// application does not fail and there is a key to acknowledge with. One is authentic where it has
/// the size of a tag and shows that its sender holds the key of the id that it came to.
pub proof fn law_confirmation_owed<App: ApplicationLayer>(
    app: App,
    zeta: ZetaView<App>,
    is_next: bool,
    kid: u32,
    n: Seq<u8>,
    c1: Seq<u8>,
    current_time: i64,
    after: ZetaView<App>,
    app_after: App,
    r: Result<Packet, ZetaError>,
)
    requires
        zeta.wf(),
        zeta.confirmation_handled(app, kid, n, c1, current_time, after, app_after, r),
        zeta.key(is_next).recv.kid == Some(kid),
        is_next || zeta.key(true).recv.kid != Some(kid),
        zeta.key(is_next).recv.kek is Some,
        c1.len() == AES_GCM_TAG_SIZE,
        control_authentic::<App>(zeta.key(is_next).recv.kek->0, n, c1),
        zeta.key(is_next).send.kek is Some,
        zeta.key(false).send.kek is Some || (is_next && (zeta.beta is A3 || zeta.beta is R2)),
        storage_works::<App>(),
    ensures
        r is Ok,
{
}

/// A key confirmation is refused where it is not authentic, and then nothing changes and nothing is
/// stored.
pub proof fn law_confirmation_refused<App: ApplicationLayer>(
    app: App,
    zeta: ZetaView<App>,
    kid: u32,
    n: Seq<u8>,
    c1: Seq<u8>,
    current_time: i64,
    after: ZetaView<App>,
    app_after: App,
    r: Result<Packet, ZetaError>,
)
    requires
        zeta.confirmation_handled(app, kid, n, c1, current_time, after, app_after, r),
        c1.len() != AES_GCM_TAG_SIZE || (forall|is_next: bool|
            (#[trigger] zeta.key(is_next)).recv.kid == Some(kid) ==> !(zeta.key(is_next).recv.kek
                matches Some(kek) && control_authentic::<App>(kek, n, c1))),
    ensures
        r is Err,
        after == zeta,
        app_after == app,
{
    assert(zeta.key(true).recv.kid == Some(kid) || zeta.key(false).recv.kid == Some(kid)
        || zeta.keys_of(kid) is None);
}

/// An application whose storage does not fail.
pub open spec fn storage_works<App: ApplicationLayer>() -> bool {
    forall|
        any: App,
        key: App::PublicKey,
        data: App::Data,
        current: RatchetStatesView,
        new: RatchetStatesView,
        saved: Result<(), std::io::Error>,
        next: App,
    |
        #[trigger]
        any.may_save_ratchet_state(key, data, current, new, saved, next) ==> saved is Ok
}

/// What comes of offering a new key. The offer goes out under the current key and the next counter,
/// and the current keys go on to be used; the session waits for the answer, which comes to the id
/// that the new key was given.
pub proof fn law_rekey_offered<App: ApplicationLayer>(
    settings: Settings,
    zeta: ZetaView<App>,
    kid_recv: u32,
    s_secret: App::KeyPair,
    current_time: i64,
    after: ZetaView<App>,
    r: Result<Packet, ZetaError>,
)
    requires
        zeta.wf(),
        zeta.send_counter < u64::MAX,
        settings.valid(),
        settings.reckons_from(current_time),
        zeta.rekey_offer_handled(settings, kid_recv, s_secret, current_time, after, r),
    ensures
        !(zeta.beta is S2) ==> r == Err::<Packet, ZetaError>(ZetaError::OutOfSequence),
        r is Err ==> after == zeta,
        r matches Ok(p) ==> {
            &&& after.beta matches BetaView::R1 { k1, counter, .. }
            &&& k1 == p@.payload
            &&& counter == zeta.send_counter
            &&& is_packet(p@, zeta.key(false).send.kid, PACKET_TYPE_REKEY_INIT, zeta.send_counter)
            &&& same_ends(after, zeta)
            &&& after.key(false) == zeta.key(false)
            &&& after.key(true).recv.kid == Some(kid_recv)
            &&& after.key(true).send == zeta.key(true).send
            &&& after.ratchet_states == zeta.ratchet_states
            &&& after.send_counter == zeta.send_counter + 1
            &&& after.key_creation_counter == zeta.key_creation_counter
            &&& after.timeout_timer == current_time + settings.expiration_timeout_ms
            &&& after.resend_timer == current_time + settings.retry_interval_ms
        },
{
}

/// What comes of a rekeying offer that is answered. The answer goes out under the current key and
/// the next counter, and the current keys go on to be used, until the new ones are confirmed. The
/// new ratchet state is stored before that, with the one that was used as the one to fall back to;
/// they are the states of the session from then on.
pub proof fn law_rekey_answered<App: ApplicationLayer>(
    app: App,
    zeta: ZetaView<App>,
    kid_recv: u32,
    s_secret: App::KeyPair,
    kid: u32,
    n: Seq<u8>,
    k1: Seq<u8>,
    current_time: i64,
    after: ZetaView<App>,
    app_after: App,
    r: Result<Packet, ZetaError>,
)
    requires
        zeta.wf(),
        zeta.send_counter < u64::MAX,
        kid_recv != 0,
        app.settings_spec().valid(),
        app.settings_spec().reckons_from(current_time),
        zeta.rekey_handled(
            app,
            kid_recv,
            s_secret,
            kid,
            n,
            k1,
            current_time,
            after,
            app_after,
            r,
        ),
        r is Ok,
    ensures
        zeta.beta is S2 || (zeta.beta is R1 && zeta.was_bob),
        zeta.key(false).recv.kid == Some(kid),
        r matches Ok(p) && {
            &&& is_packet(
                p@,
                zeta.key(false).send.kid,
                PACKET_TYPE_REKEY_COMPLETE,
                zeta.send_counter,
            )
            &&& after.beta matches BetaView::R2 { k2, counter }
            &&& k2 == p@.payload
            &&& counter == zeta.send_counter
        },
        same_ends(after, zeta),
        after.key(false) == zeta.key(false),
        after.key(true).full(),
        after.key(true).recv.kid == Some(kid_recv),
        after.ratchet_states.second == zeta.ratchet_states.first,
        after.ratchet_states.first matches Some(new) && new.fingerprint is Some && new.chain_len
            == longer((zeta.ratchet_states.first->0).chain_len),
        exists|stored: RatchetStatesView, saved: Result<(), std::io::Error>|
            {
                &&& #[trigger] app.may_save_ratchet_state(
                    zeta.s_remote,
                    zeta.application_data,
                    zeta.ratchet_states,
                    stored,
                    saved,
                    app_after,
                )
                &&& saved is Ok
                &&& stored == after.ratchet_states
            },
        after.send_counter == zeta.send_counter + 1,
        after.key_creation_counter == zeta.send_counter + 1,
        after.timeout_timer == current_time + app.settings_spec().expiration_timeout_ms,
        after.resend_timer == current_time + app.settings_spec().retry_interval_ms,
{
}

/// A rekeying offer that is not answered changes nothing but the counter, which may have been used,
/// and the session keeps its keys, its ratchet states and its stage. Only a session that has
/// settled answers one, or one that has made an offer of its own and was the responder of the
/// handshake: of two offers that cross one is answered, and the other is out of sequence.
pub proof fn law_rekey_unanswered<App: ApplicationLayer>(
    app: App,
    zeta: ZetaView<App>,
    kid_recv: u32,
    s_secret: App::KeyPair,
    kid: u32,
    n: Seq<u8>,
    k1: Seq<u8>,
    current_time: i64,
    after: ZetaView<App>,
    app_after: App,
    r: Result<Packet, ZetaError>,
)
    requires
        zeta.send_counter < u64::MAX,
        zeta.rekey_handled(
            app,
            kid_recv,
            s_secret,
            kid,
            n,
            k1,
            current_time,
            after,
            app_after,
            r,
        ),
        r is Err,
    ensures
        after == zeta || after == (ZetaView {
            send_counter: (zeta.send_counter + 1) as u64,
            ..zeta
        }),
        r matches Err(ZetaError::RatchetIoError(e)) ==> exists|stored: RatchetStatesView, saved: Result<(), std::io::Error>|
            {
                &&& #[trigger] app.may_save_ratchet_state(
                zeta.s_remote,
                zeta.application_data,
                zeta.ratchet_states,
                stored,
                saved,
                app_after,
                )
                &&& saved == Err::<(), std::io::Error>(e)
            },
        !(r matches Err(ZetaError::RatchetIoError(e))) ==> after == zeta && app_after == app,
        !(zeta.beta is S2) && !(zeta.beta is R1 && zeta.was_bob) ==> after == zeta && app_after
            == app,
{
}

/// What comes of the answer to a rekeying offer that is taken. The new key is the current one, and
/// the one before it is kept to receive with. The new ratchet state is stored before that, and no
/// other beside it; it is the first ratchet state of the session from then on. The new key is
/// confirmed to the other end, under it and the next counter.
pub proof fn law_rekeyed<App: ApplicationLayer>(
    app: App,
    zeta: ZetaView<App>,
    kid: u32,
    n: Seq<u8>,
    k2: Seq<u8>,
    current_time: i64,
    after: ZetaView<App>,
    app_after: App,
    r: Result<Packet, ZetaError>,
)
    requires
        zeta.wf(),
        zeta.send_counter < u64::MAX,
        app.settings_spec().valid(),
        app.settings_spec().reckons_from(current_time),
        zeta.rekey_completed(app, kid, n, k2, current_time, after, app_after, r),
        r is Ok,
    ensures
        zeta.beta is R1,
        zeta.key(false).recv.kid == Some(kid),
        after.beta is S1,
        same_ends(after, zeta),
        exists|stored: RatchetStatesView, saved: Result<(), std::io::Error>|
            {
                &&& #[trigger] app.may_save_ratchet_state(
                    zeta.s_remote,
                    zeta.application_data,
                    zeta.ratchet_states,
                    stored,
                    saved,
                    app_after,
                )
                &&& saved is Ok
                &&& stored.first == after.ratchet_states.first
                &&& stored.second is None
            },
        after.ratchet_states.first matches Some(new) && new.fingerprint is Some && new.chain_len
            == longer((zeta.ratchet_states.first->0).chain_len),
        after.ratchet_states.second == zeta.ratchet_states.second,
        after.key(true) == zeta.key(false),
        after.key(false).full(),
        after.key(false).recv.kid == zeta.key(true).recv.kid,
        r matches Ok(p) && is_packet(
            p@,
            after.key(false).send.kid,
            PACKET_TYPE_KEY_CONFIRM,
            zeta.send_counter,
        ) && p@.payload == control_tag::<App>(after.key(false).send.kek->0, p@.nonce),
        after.send_counter == zeta.send_counter + 1,
        after.key_creation_counter == zeta.send_counter,
        after.timeout_timer == current_time + app.settings_spec().expiration_timeout_ms,
        after.resend_timer == current_time + app.settings_spec().retry_interval_ms,
{
}

/// The answer to a rekeying offer that is not taken changes nothing, and nothing is stored unless
/// that is what failed.
pub proof fn law_not_rekeyed<App: ApplicationLayer>(
    app: App,
    zeta: ZetaView<App>,
    kid: u32,
    n: Seq<u8>,
    k2: Seq<u8>,
    current_time: i64,
    after: ZetaView<App>,
    app_after: App,
    r: Result<Packet, ZetaError>,
)
    requires
        zeta.rekey_completed(app, kid, n, k2, current_time, after, app_after, r),
        r is Err,
    ensures
        after == zeta,
        !(r matches Err(ZetaError::RatchetIoError(e))) ==> app_after == app,
        r matches Err(ZetaError::RatchetIoError(e)) ==> exists|stored: RatchetStatesView, saved: Result<(), std::io::Error>|
            {
                &&& #[trigger] app.may_save_ratchet_state(
                zeta.s_remote,
                zeta.application_data,
                zeta.ratchet_states,
                stored,
                saved,
                app_after,
                )
                &&& saved == Err::<(), std::io::Error>(e)
            },
{
}

/// Sending succeeds in every stage from the establishment of a session to its end, those where a
/// new key is asked for or offered among them: what goes out is the data, sealed with the current
/// key, to the id that the other end has for it, under the next counter. Before and after that
/// sending is refused, for its own reason, and changes nothing.
pub proof fn law_data_sent<App: ApplicationLayer>(
    zeta: ZetaView<App>,
    settings: Settings,
    payload: Seq<u8>,
    after: ZetaView<App>,
    r: Result<Packet, SendError>,
)
    requires
        zeta.send_counter < u64::MAX,
        zeta.data_sent(settings, payload, after, r),
    ensures
        zeta.beta is S1 || zeta.beta is S2 || zeta.beta is R1 || zeta.beta is R2 ==> {
            &&& r matches Ok(p)
            &&& is_packet(
                p@,
                Some(zeta.key(false).send.kid->0),
                PACKET_TYPE_DATA,
                zeta.send_counter,
            )
            &&& p@.payload == packet_sealed::<App>(zeta.key(false).send.nk->0, p@.nonce, payload)
            &&& after.send_counter == zeta.send_counter + 1
            &&& same_ends(after, zeta)
            &&& after.keys == zeta.keys
            &&& after.key_index == zeta.key_index
            &&& after.key_creation_counter == zeta.key_creation_counter
            &&& after.ratchet_states == zeta.ratchet_states
            &&& after.resend_timer == zeta.resend_timer
            &&& after.beta == if zeta.send_counter - zeta.key_creation_counter
                < settings.expire_after_uses {
                zeta.beta
            } else {
                BetaView::Null
            }
            &&& zeta.send_counter - zeta.key_creation_counter < settings.rekey_after_uses
                ==> after.timeout_timer == zeta.timeout_timer
            &&& settings.rekey_after_uses <= zeta.send_counter - zeta.key_creation_counter
                < settings.expire_after_uses ==> after.timeout_timer == i64::MIN
        },
        zeta.beta is Null ==> after == zeta && r == Err::<Packet, SendError>(
            SendError::SessionExpired,
        ),
        zeta.beta is A1 || zeta.beta is A3 ==> after == zeta && r == Err::<Packet, SendError>(
            SendError::SessionNotEstablished,
        ),
{
}

/// A session that could send data before it offered a new key, or answered the offer of one, can
/// send it afterwards, and so can one that has taken up a new key.
pub proof fn law_rekeying_keeps_sending<App: ApplicationLayer>(
    app: App,
    zeta: ZetaView<App>,
    kid_recv: u32,
    s_secret: App::KeyPair,
    kid: u32,
    n: Seq<u8>,
    packet: Seq<u8>,
    current_time: i64,
    between: ZetaView<App>,
    app_after: App,
    r: Result<Packet, ZetaError>,
    settings: Settings,
    payload: Seq<u8>,
    after: ZetaView<App>,
    sent: Result<Packet, SendError>,
)
    requires
        zeta.wf(),
        zeta.send_counter + 1 < u64::MAX,
        zeta.beta is S1 || zeta.beta is S2 || zeta.beta is R1 || zeta.beta is R2,
        zeta.rekey_offer_handled(
            app.settings_spec(),
            kid_recv,
            s_secret,
            current_time,
            between,
            r,
        ) || zeta.rekey_handled(
            app,
            kid_recv,
            s_secret,
            kid,
            n,
            packet,
            current_time,
            between,
            app_after,
            r,
        ) || zeta.rekey_completed(app, kid, n, packet, current_time, between, app_after, r)
            || zeta.confirmation_handled(app, kid, n, packet, current_time, between, app_after, r),
        between.data_sent(settings, payload, after, sent),
    ensures
        sent is Ok,
{
    assert(between.beta is S1 || between.beta is S2 || between.beta is R1 || between.beta is R2);
    law_data_sent(between, settings, payload, after, sent);
}

/// Data is received under either key whose id it came to, whatever stage the session is in, exactly
/// where it is authentic under that key; what comes out is what was sealed, and behind it the tag.
pub proof fn law_data_received_where<App: ApplicationLayer>(
    zeta: ZetaView<App>,
    is_next: bool,
    kid: u32,
    n: Seq<u8>,
    packet: Seq<u8>,
)
    requires
        zeta.key(is_next).recv.kid == Some(kid),
        is_next || zeta.key(true).recv.kid != Some(kid),
    ensures
        match zeta.received(kid, n, packet) {
            Ok(data) => {
                &&& packet.len() >= AES_GCM_TAG_SIZE
                &&& zeta.key(is_next).recv.nk is Some
                &&& packet_opened::<App>(zeta.key(is_next).recv.nk->0, n, packet) matches Some(
                    plain,
                )
                &&& data == plain + packet.subrange(
                    packet.len() - AES_GCM_TAG_SIZE,
                    packet.len() as int,
                )
            },
            Err(e) => packet.len() < AES_GCM_TAG_SIZE || zeta.key(is_next).recv.nk is None
                || packet_opened::<App>(zeta.key(is_next).recv.nk->0, n, packet) is None,
        },
{
}

/// A refusal ends a session exactly where it has sent its completion and waits for the confirmation
/// of the responder, and the refusal is authentic under the keys that were to follow.
pub proof fn law_refused_where<App: ApplicationLayer>(
    zeta: ZetaView<App>,
    kid: u32,
    n: Seq<u8>,
    d: Seq<u8>,
)
    requires
        zeta.wf(),
    ensures
        zeta.rejection_checked(kid, n, d) is Ok <==> zeta.beta is A3 && zeta.key(true).recv.kid
            == Some(kid) && d.len() == AES_GCM_TAG_SIZE && control_authentic::<App>(
            zeta.key(true).recv.kek->0,
            n,
            d,
        ),
        zeta.expired().beta is Null,
        zeta.expired() == (ZetaView { beta: BetaView::Null, ..zeta }),
{
}

} // verus!
