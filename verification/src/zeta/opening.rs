//! What each step of the handshake leaves behind, at both ends.

use vstd::prelude::*;

use crate::application::{ApplicationLayer, RatchetStates, RatchetStatesView};
use crate::crypto::P384KeyPair;
use crate::proto::{
    u32_be, HANDSHAKE_RESPONSE_SIZE, KID_SIZE, PACKET_TYPE_HANDSHAKE_COMPLETION,
    PACKET_TYPE_HANDSHAKE_HELLO, PACKET_TYPE_HANDSHAKE_RESPONSE, PACKET_TYPE_KEY_CONFIRM,
    PACKET_TYPE_SESSION_REJECTED, RATCHET_SIZE,
};
use crate::ratchet_state::{empty_ratchet, RatchetState, RatchetView};
use crate::result::{OpenError, ZetaError};
use crate::zeta::completion::{
    completion_accepted, completion_handled, completion_read, established, ratchet_judged,
    states_established,
};
use crate::zeta::hello::{
    hello_handled, hello_read, offered_fingerprints, ratchet_search, session_opened, StateB2,
    StateB2View,
};
use crate::zeta::outcomes::{is_packet, longer, same_ends, storage_works};
use crate::zeta::response::{kid_opened, response_handled, response_read, ResponseView};
use crate::zeta::sealed::control_tag;
use crate::zeta::{BetaView, Packet, Zeta, ZetaView};

verus! {

/// What an initiator has of the ratchet states that it remembers: the fingerprints of those that
/// have one, the first state first.
pub proof fn law_fingerprints_offered(states: RatchetStatesView)
    ensures
        ({
            let offered = offered_fingerprints(states);
            match (states.first, states.second) {
                (
                    Some(RatchetView { fingerprint: Some(f1), .. }),
                    Some(RatchetView { fingerprint: Some(f2), .. }),
                ) => offered == f1 + f2,
                (Some(RatchetView { fingerprint: Some(f1), .. }), _) => offered == f1,
                (_, Some(RatchetView { fingerprint: Some(f2), .. })) => offered == f2,
                _ => offered.len() == 0,
            }
        }),
{
    assert(offered_fingerprints(states) =~= offered_fingerprints(states));
}

/// What comes of opening a session. It begins in the stage where its hello is out, with the peer,
/// the data and the id that it was opened with, and with the ratchet states that were stored for
/// the peer; it has no keys and has sent nothing yet; it sends its hello again after a while, and
/// gives up after another. The hello goes out to no id.
pub proof fn law_opened<App: ApplicationLayer>(
    app: App,
    kid_recv: u32,
    s_remote: App::PublicKey,
    application_data: App::Data,
    current_time: i64,
    app_after: App,
    r: Result<(Zeta<App>, Packet), OpenError>,
)
    requires
        app.settings_spec().valid(),
        app.settings_spec().reckons_from(current_time),
        session_opened(
            app,
            kid_recv,
            s_remote,
            application_data,
            current_time,
            app_after,
            r,
        ),
    ensures
        r matches Ok((z, p)) ==> {
            &&& z@.beta matches BetaView::A1 { x1, .. }
            &&& x1 == p@.payload
            &&& z@.s_remote == s_remote
            &&& z@.application_data == application_data
            &&& !z@.was_bob
            &&& z@.key(true).recv.kid == Some(kid_recv)
            &&& z@.key(true).recv.kek is None && z@.key(true).recv.nk is None
            &&& z@.key(true).send.kid is None && z@.key(true).send.kek is None
            &&& z@.key(false).recv.kid is None && z@.key(false).send.kek is None
            &&& z@.send_counter == 0
            &&& z@.key_creation_counter == 0
            &&& z@.resend_timer == current_time + app.settings_spec().retry_interval_ms
            &&& z@.timeout_timer == current_time + app.settings_spec().expiration_timeout_ms
            &&& p@.kid == 0
            &&& p@.nonce[3] == PACKET_TYPE_HANDSHAKE_HELLO
            &&& x1.subrange(0, KID_SIZE as int) == u32_be(kid_recv)
        },
        r matches Ok((z, p)) ==> exists|restored: Result<RatchetStates, std::io::Error>|
            {
                &&& #[trigger] app.may_restore_by_identity(
                    s_remote,
                    application_data,
                    restored,
                    app_after,
                )
                &&& restored matches Ok(states)
                &&& states@ == z@.ratchet_states
            },
        r matches Err(OpenError::StorageError(e)) ==> exists|
            restored: Result<RatchetStates, std::io::Error>,
        |
            {
                &&& #[trigger] app.may_restore_by_identity(
                    s_remote,
                    application_data,
                    restored,
                    app_after,
                )
                &&& restored == Err::<RatchetStates, std::io::Error>(e)
            },
        !(r matches Err(OpenError::IdentityTooLarge)),
{
    assert(forall|rest1: Seq<u8>, rest2: Seq<u8>, rest3: Seq<u8>|
        (#[trigger] (u32_be(kid_recv) + rest1 + rest2 + rest3)).subrange(0, KID_SIZE as int)
            =~= u32_be(kid_recv));
}

/// A session is opened where the storage of the application yields ratchet states and a secret can
/// be agreed with the static key of the peer.
pub proof fn law_opening_owed<App: ApplicationLayer>(
    app: App,
    kid_recv: u32,
    s_remote: App::PublicKey,
    application_data: App::Data,
    current_time: i64,
    app_after: App,
    r: Result<(Zeta<App>, Packet), OpenError>,
)
    requires
        session_opened(
            app,
            kid_recv,
            s_remote,
            application_data,
            current_time,
            app_after,
            r,
        ),
        forall|restored: Result<RatchetStates, std::io::Error>, next: App| #[trigger]
            app.may_restore_by_identity(s_remote, application_data, restored, next)
                ==> restored is Ok,
        forall|e: App::KeyPair| #[trigger] e.may_generate() ==> e.shared(s_remote) is Some,
    ensures
        r is Ok,
{
}

/// One step of a search: the first fingerprint is looked up, and the search ends with what is
/// found, or goes on.
proof fn lemma_search_step<App: ApplicationLayer>(
    app: App,
    fingerprints: Seq<u8>,
    app_after: App,
    r: Result<Option<RatchetState>, ZetaError>,
) -> (step: (Result<Option<RatchetState>, std::io::Error>, App))
    requires
        ratchet_search(app, fingerprints, app_after, r),
        fingerprints.len() >= RATCHET_SIZE,
    ensures
        app.may_restore_by_fingerprint(
            fingerprints.subrange(0, RATCHET_SIZE as int),
            step.0,
            step.1,
        ),
        match step.0 {
            Err(e) => app_after == step.1 && r == Err::<Option<RatchetState>, ZetaError>(
                ZetaError::RatchetIoError(e),
            ),
            Ok(found) => if found matches Some(rs) && rs@.fingerprint is Some {
                app_after == step.1 && r == Ok::<Option<RatchetState>, ZetaError>(found)
            } else {
                ratchet_search(
                    step.1,
                    fingerprints.subrange(RATCHET_SIZE as int, fingerprints.len() as int),
                    app_after,
                    r,
                )
            },
        },
{
    let rest = fingerprints.subrange(RATCHET_SIZE as int, fingerprints.len() as int);
    choose|answer: Result<Option<RatchetState>, std::io::Error>, next: App|
        {
            &&& #[trigger] app.may_restore_by_fingerprint(
                fingerprints.subrange(0, RATCHET_SIZE as int),
                answer,
                next,
            )
            &&& match answer {
                Err(e) => app_after == next && r == Err::<Option<RatchetState>, ZetaError>(
                    ZetaError::RatchetIoError(e),
                ),
                Ok(Some(rs)) => if rs@.fingerprint is Some {
                    app_after == next && r == Ok::<Option<RatchetState>, ZetaError>(Some(rs))
                } else {
                    ratchet_search(next, rest, app_after, r)
                },
                Ok(None) => ratchet_search(next, rest, app_after, r),
            }
        }
}

/// The state that is stored under the first fingerprint of a hello is the one that is found, where
/// it is not empty.
pub proof fn law_first_fingerprint_found<App: ApplicationLayer>(
    app: App,
    fingerprints: Seq<u8>,
    app_after: App,
    r: Result<Option<RatchetState>, ZetaError>,
    stored: RatchetView,
)
    requires
        ratchet_search(app, fingerprints, app_after, r),
        fingerprints.len() >= RATCHET_SIZE,
        stored.fingerprint is Some,
        forall|answer: Result<Option<RatchetState>, std::io::Error>, next: App| #[trigger]
            app.may_restore_by_fingerprint(
                fingerprints.subrange(0, RATCHET_SIZE as int),
                answer,
                next,
            ) ==> (answer matches Ok(Some(rs)) && rs@ == stored),
    ensures
        r matches Ok(Some(rs)) && rs@ == stored,
        app.may_restore_by_fingerprint(
            fingerprints.subrange(0, RATCHET_SIZE as int),
            Ok(r->Ok_0),
            app_after,
        ),
{
    let step = lemma_search_step(app, fingerprints, app_after, r);
}

/// Where nothing is stored under the first fingerprint of a hello, the search goes on with the next
/// one, and what is found there is what is found.
pub proof fn law_later_fingerprint_found<App: ApplicationLayer>(
    app: App,
    fingerprints: Seq<u8>,
    app_after: App,
    r: Result<Option<RatchetState>, ZetaError>,
)
    requires
        ratchet_search(app, fingerprints, app_after, r),
        fingerprints.len() >= RATCHET_SIZE,
        forall|answer: Result<Option<RatchetState>, std::io::Error>, next: App| #[trigger]
            app.may_restore_by_fingerprint(
                fingerprints.subrange(0, RATCHET_SIZE as int),
                answer,
                next,
            ) ==> (answer matches Ok(found) && (found matches Some(rs) ==> rs@.fingerprint
                is None)),
    ensures
        exists|next: App| #[trigger]
            ratchet_search(
                next,
                fingerprints.subrange(RATCHET_SIZE as int, fingerprints.len() as int),
                app_after,
                r,
            ),
{
    let step = lemma_search_step(app, fingerprints, app_after, r);
}

/// Nothing is looked up where a hello names no ratchet state, and nothing is found; and what is
/// found is never empty.
pub proof fn law_found_is_stored<App: ApplicationLayer>(
    app: App,
    fingerprints: Seq<u8>,
    app_after: App,
    r: Result<Option<RatchetState>, ZetaError>,
)
    requires
        ratchet_search(app, fingerprints, app_after, r),
    ensures
        fingerprints.len() < RATCHET_SIZE ==> app_after == app && r == Ok::<
            Option<RatchetState>,
            ZetaError,
        >(None),
        r matches Ok(Some(rs)) ==> rs@.fingerprint is Some,
        r matches Err(e) ==> e is RatchetIoError,
    decreases fingerprints.len(),
{
    if fingerprints.len() >= RATCHET_SIZE {
        let (answer, next) = lemma_search_step(app, fingerprints, app_after, r);
        let rest = fingerprints.subrange(RATCHET_SIZE as int, fingerprints.len() as int);
        if answer matches Ok(found) && !(found matches Some(rs) && rs@.fingerprint is Some) {
            law_found_is_stored(next, rest, app_after, r);
        }
    }
}

/// What comes of a hello that is answered. The responder goes by the ratchet state that it found
/// for the hello or, where it found none and none is required, by the empty one; it knows the
/// initiator by the id in the hello, and will be known by its own; and its response goes to that
/// id.
pub proof fn law_hello_answered<App: ApplicationLayer>(
    app: App,
    kid_recv: u32,
    s_secret: App::KeyPair,
    c: u64,
    x1: Seq<u8>,
    app_after: App,
    r: Result<(StateB2<App>, Packet), ZetaError>,
)
    requires
        hello_handled(app, kid_recv, s_secret, c, x1, app_after, r),
        r is Ok,
    ensures
        hello_read::<App>(s_secret, c, x1) matches Some(hello) && r matches Ok((b2, p)) && {
            &&& b2@.kid_send == hello.kid_send
            &&& b2@.kid_recv == kid_recv
            &&& p@.kid == hello.kid_send
            &&& p@.nonce[3] == PACKET_TYPE_HANDSHAKE_RESPONSE
            &&& b2@.e_secret.may_generate()
            &&& exists|found: Result<Option<RatchetState>, ZetaError>, next: App|
                {
                    &&& #[trigger] ratchet_search(app, hello.fingerprints, next, found)
                    &&& found matches Ok(state)
                    &&& match state {
                        Some(rs) => b2@.ratchet_state == rs@ && app_after == next,
                        None => b2@.ratchet_state == empty_ratchet()
                            && next.may_require_ratchet(false, app_after),
                    }
                }
        },
{
}

/// A hello is not answered where it is not authentic, where looking up its fingerprints fails, or
/// where it names no ratchet state that is known and one is required. In every other case it is,
/// where a secret can be agreed with its ephemeral key.
pub proof fn law_hello_owed<App: ApplicationLayer>(
    app: App,
    kid_recv: u32,
    s_secret: App::KeyPair,
    c: u64,
    x1: Seq<u8>,
    app_after: App,
    r: Result<(StateB2<App>, Packet), ZetaError>,
)
    requires
        hello_handled(app, kid_recv, s_secret, c, x1, app_after, r),
        hello_read::<App>(s_secret, c, x1) matches Some(hello) && forall|e: App::KeyPair| #[trigger]
            e.may_generate() ==> e.shared(hello.e_remote) is Some,
        forall|any: App, fingerprint: Seq<u8>, answer: Result<Option<RatchetState>, std::io::Error>,
            next: App,
        |
            #[trigger]
            any.may_restore_by_fingerprint(fingerprint, answer, next) ==> answer is Ok,
        forall|any: App, required: bool, next: App| #[trigger]
            any.may_require_ratchet(required, next) ==> !required,
    ensures
        r is Ok,
{
    let hello = hello_read::<App>(s_secret, c, x1)->0;
    let (found, next) = choose|found: Result<Option<RatchetState>, ZetaError>, next: App|
        {
            &&& #[trigger] ratchet_search(app, hello.fingerprints, next, found)
            &&& match found {
                Err(e) => app_after == next && r == Err::<(StateB2<App>, Packet), ZetaError>(e),
                Ok(Some(rs)) => app_after == next && crate::zeta::hello::hello_answered(
                    hello,
                    rs@,
                    kid_recv,
                    r,
                ),
                Ok(None) => exists|required: bool|
                    {
                        &&& #[trigger] next.may_require_ratchet(required, app_after)
                        &&& if required {
                            r matches Err(ZetaError::FailedAuthentication)
                        } else {
                            crate::zeta::hello::hello_answered(
                                hello,
                                empty_ratchet(),
                                kid_recv,
                                r,
                            )
                        }
                    },
            }
        };
    lemma_search_works(app, hello.fingerprints, next, found);
}

/// A search in storage that does not fail does not fail.
proof fn lemma_search_works<App: ApplicationLayer>(
    app: App,
    fingerprints: Seq<u8>,
    app_after: App,
    r: Result<Option<RatchetState>, ZetaError>,
)
    requires
        ratchet_search(app, fingerprints, app_after, r),
        forall|any: App, fingerprint: Seq<u8>, answer: Result<Option<RatchetState>, std::io::Error>,
            next: App,
        |
            #[trigger]
            any.may_restore_by_fingerprint(fingerprint, answer, next) ==> answer is Ok,
    ensures
        r is Ok,
    decreases fingerprints.len(),
{
    if fingerprints.len() >= RATCHET_SIZE {
        let (answer, next) = lemma_search_step(app, fingerprints, app_after, r);
        let rest = fingerprints.subrange(RATCHET_SIZE as int, fingerprints.len() as int);
        if answer matches Ok(found) && !(found matches Some(rs) && rs@.fingerprint is Some) {
            lemma_search_works(next, rest, app_after, r);
        }
    }
}

/// What comes of a response that is taken. The session waits for the confirmation of the responder;
/// its next keys are there, under the id that it was opened with and the id of the responder; the
/// new ratchet state was stored before that, together with the state that is kept beside it, and
/// both are the states of the session from then on. The completion goes to the id of the responder.
pub proof fn law_response_taken<App: ApplicationLayer>(
    app: App,
    zeta: ZetaView<App>,
    kid: u32,
    c: u64,
    x2: Seq<u8>,
    s_secret: App::KeyPair,
    identity: Seq<u8>,
    current_time: i64,
    after: ZetaView<App>,
    app_after: App,
    r: Result<(Packet, bool), ZetaError>,
)
    requires
        zeta.wf(),
        app.settings_spec().valid(),
        app.settings_spec().reckons_from(current_time),
        response_handled(
            app,
            zeta,
            kid,
            c,
            x2,
            s_secret,
            identity,
            current_time,
            after,
            app_after,
            r,
        ),
        r is Ok,
    ensures
        zeta.beta is A1,
        zeta.key(true).recv.kid == Some(kid),
        r matches Ok((p, downgraded)) && {
            &&& after.beta matches BetaView::A3 { x3 }
            &&& x3 == p@.payload
            &&& is_packet(p@, after.key(true).send.kid, PACKET_TYPE_HANDSHAKE_COMPLETION, 0)
        },
        same_ends(after, zeta),
        after.key(true).full(),
        after.key(true).recv.kid == zeta.key(true).recv.kid,
        after.key(false) == zeta.key(false),
        after.send_counter == zeta.send_counter,
        after.key_creation_counter == zeta.send_counter,
        after.resend_timer == current_time + app.settings_spec().retry_interval_ms,
        after.timeout_timer == current_time + app.settings_spec().initial_offer_timeout_ms,
        exists|any: App, stored: RatchetStatesView, saved: Result<(), std::io::Error>|
            {
                &&& #[trigger] any.may_save_ratchet_state(
                    zeta.s_remote,
                    zeta.application_data,
                    zeta.ratchet_states,
                    stored,
                    saved,
                    app_after,
                )
                &&& saved is Ok
                &&& stored == after.ratchet_states
                &&& any == app || app.may_disallow_downgrade(false, any)
            },
        after.ratchet_states.first matches Some(new) && new.fingerprint is Some,
{
}

/// The ratchet key that an initiator goes on by is one that it remembers, the first one rather than
/// the second, where the response is authentic under it: the new state follows that one, which is
/// kept beside it. The response is authentic under a key where the key opens an id in it that is
/// not zero.
pub proof fn law_remembered_key_used<App: ApplicationLayer>(
    app: App,
    zeta: ZetaView<App>,
    kid: u32,
    c: u64,
    x2: Seq<u8>,
    s_secret: App::KeyPair,
    identity: Seq<u8>,
    current_time: i64,
    after: ZetaView<App>,
    app_after: App,
    r: Result<(Packet, bool), ZetaError>,
    response: ResponseView<App>,
)
    requires
        response_handled(
            app,
            zeta,
            kid,
            c,
            x2,
            s_secret,
            identity,
            current_time,
            after,
            app_after,
            r,
        ),
        response_read(zeta, kid, c, x2) == Some(response),
        s_secret.shared(response.e_remote) is Some,
        storage_works::<App>(),
    ensures
        ({
            let opens = |state: Option<RatchetView>|
                state matches Some(s) && kid_opened(response, s.key) is Some;
            let first = zeta.ratchet_states.first;
            let second = zeta.ratchet_states.second;
            let used = if opens(first) {
                first
            } else {
                second
            };
            &&& opens(first) || opens(second) ==> {
                &&& r matches Ok((p, downgraded))
                &&& !downgraded
                &&& kid_opened(response, (used->0).key) matches Some((kid_send, _))
                &&& p@.kid == kid_send
                &&& after.key(true).send.kid == Some(kid_send)
                &&& after.ratchet_states.second == used
                &&& (after.ratchet_states.first->0).chain_len == longer((used->0).chain_len)
            }
            &&& !opens(first) && !opens(second) ==> match r {
                Ok((p, downgraded)) => {
                    &&& downgraded
                    &&& kid_opened(response, empty_ratchet().key) matches Some((kid_send, _))
                    &&& p@.kid == kid_send
                    &&& after.key(true).send.kid == Some(kid_send)
                    &&& after.ratchet_states.second == second
                    &&& (after.ratchet_states.first->0).chain_len == 1
                },
                Err(e) => {
                    &&& e is FailedAuthentication
                    &&& after == zeta
                    &&& kid_opened(response, empty_ratchet().key) is None
                        || app.may_disallow_downgrade(true, app_after)
                },
            }
        }),
{
}

/// A response that is not taken leaves the session waiting, as it was.
pub proof fn law_response_refused<App: ApplicationLayer>(
    app: App,
    zeta: ZetaView<App>,
    kid: u32,
    c: u64,
    x2: Seq<u8>,
    s_secret: App::KeyPair,
    identity: Seq<u8>,
    current_time: i64,
    after: ZetaView<App>,
    app_after: App,
    r: Result<(Packet, bool), ZetaError>,
)
    requires
        response_handled(
            app,
            zeta,
            kid,
            c,
            x2,
            s_secret,
            identity,
            current_time,
            after,
            app_after,
            r,
        ),
    ensures
        r is Err ==> after == zeta,
        !(zeta.beta is A1) || zeta.key(true).recv.kid != Some(kid) || x2.len()
            != HANDSHAKE_RESPONSE_SIZE || c >= 0x100_0000 ==> r == Err::<
            (Packet, bool),
            ZetaError,
        >(ZetaError::FailedAuthentication) && app_after == app,
{
}

/// What comes of a completion of which a session is made. The application has accepted the
/// initiator by the static key and the identity that the completion carries, and the data that it
/// gave goes with the session. The ratchet state of the handshake was judged by what is stored for
/// the initiator; the new state was stored in its place, and no other beside it, and it is the
/// state of the session. The session has its first keys, under the two ids of the handshake, and
/// waits for the acknowledgement of its confirmation, which goes to the id of the initiator.
pub proof fn law_session_made<App: ApplicationLayer>(
    app: App,
    b2: StateB2View<App>,
    kid: u32,
    x3: Seq<u8>,
    current_time: i64,
    app_after: App,
    r: Result<(Zeta<App>, Packet, bool), (ZetaError, Option<Packet>)>,
)
    requires
        b2.wf(),
        app.settings_spec().valid(),
        app.settings_spec().reckons_from(current_time),
        completion_handled(app, b2, kid, x3, current_time, app_after, r),
        r is Ok,
    ensures
        kid == b2.kid_recv,
        completion_read(b2, kid, x3) matches Some(completion) && r matches Ok((z, c1, downgraded))
            && {
            &&& z@.beta is S1
            &&& z@.was_bob
            &&& z@.s_remote == completion.s_remote
            &&& z@.key(false).full()
            &&& z@.key(false).send.kid == Some(b2.kid_send)
            &&& z@.key(false).recv.kid == Some(b2.kid_recv)
            &&& z@.key(true).recv.kid is None && z@.key(true).send.kek is None
            &&& z@.hk_send == b2.hk_send
            &&& z@.hk_recv == b2.hk_recv
            &&& z@.send_counter == 1
            &&& z@.key_creation_counter == 1
            &&& z@.resend_timer == current_time + app.settings_spec().retry_interval_ms
            &&& z@.timeout_timer == current_time + app.settings_spec().expiration_timeout_ms
            &&& is_packet(c1@, Some(b2.kid_send), PACKET_TYPE_KEY_CONFIRM, 0)
            &&& c1@.payload == control_tag::<App>(z@.key(false).send.kek->0, c1@.nonce)
            &&& z@.ratchet_states.second is None
            &&& z@.ratchet_states.first matches Some(new)
            &&& new.fingerprint is Some
            &&& new.chain_len == longer(b2.ratchet_state.chain_len)
            &&& exists|
                answer: (Option<(bool, App::Data)>, bool),
                judging: App,
                restored: Result<RatchetStates, std::io::Error>,
                next: App,
                stored: RatchetStatesView,
                saved: Result<(), std::io::Error>,
            |
                {
                    &&& #[trigger] app.may_accept(
                        completion.s_remote,
                        completion.identity,
                        answer,
                        judging,
                    )
                    &&& #[trigger] judging.may_restore_by_identity(
                        completion.s_remote,
                        z@.application_data,
                        restored,
                        next,
                    )
                    &&& answer.0 matches Some((disallows, data))
                    &&& data == z@.application_data
                    &&& restored matches Ok(states)
                    &&& states@ == stored
                    &&& #[trigger] next.may_save_ratchet_state(
                        completion.s_remote,
                        z@.application_data,
                        stored,
                        z@.ratchet_states,
                        saved,
                        app_after,
                    )
                    &&& saved is Ok
                    &&& downgraded <==> stored.first != Some(b2.ratchet_state) && stored.second
                        != Some(b2.ratchet_state)
                    &&& downgraded ==> !disallows && b2.ratchet_state.fingerprint is None
                }
        },
{
    let completion = completion_read(b2, kid, x3)->0;
    let z = (r->Ok_0).0@;
    let settings = app.settings_spec();
    let (answer, judging) = choose|answer: (Option<(bool, App::Data)>, bool), judging: App|
        {
            let refusal = if answer.1 {
                Some(crate::zeta::completion::rejection(b2, completion))
            } else {
                None
            };
            &&& #[trigger] app.may_accept(
                completion.s_remote,
                completion.identity,
                answer,
                judging,
            )
            &&& answer.0 matches Some((disallows, data))
            &&& completion_accepted(
                judging,
                settings,
                b2,
                completion,
                disallows,
                data,
                refusal,
                current_time,
                app_after,
                r,
            )
        };
    let (disallows, data) = answer.0->0;
    let (restored, next) = choose|restored: Result<RatchetStates, std::io::Error>, next: App|
        {
            &&& #[trigger] judging.may_restore_by_identity(
                completion.s_remote,
                data,
                restored,
                next,
            )
            &&& restored matches Ok(stored)
            &&& ratchet_judged(b2.ratchet_state, stored@, disallows) matches Some(downgraded)
            &&& downgraded == (r->Ok_0).2
            &&& exists|saved: Result<(), std::io::Error>|
                {
                    &&& #[trigger] next.may_save_ratchet_state(
                        completion.s_remote,
                        data,
                        stored@,
                        states_established(b2, completion),
                        saved,
                        app_after,
                    )
                    &&& saved is Ok
                    &&& (z, (r->Ok_0).1@) == established(
                        b2,
                        settings,
                        completion,
                        data,
                        current_time,
                    )
                }
        };
    assert(z.application_data == data);
    assert(judging.may_restore_by_identity(
        completion.s_remote,
        z.application_data,
        restored,
        next,
    ));
}

/// What comes of a completion of which no session is made. One that is not authentic is not
/// answered. Where the application refuses the initiator, or the ratchet state is not accepted, a
/// refusal goes to the initiator exactly where the application wants one. Where storage fails
/// nothing goes out.
pub proof fn law_no_session_made<App: ApplicationLayer>(
    app: App,
    b2: StateB2View<App>,
    kid: u32,
    x3: Seq<u8>,
    current_time: i64,
    app_after: App,
    r: Result<(Zeta<App>, Packet, bool), (ZetaError, Option<Packet>)>,
)
    requires
        completion_handled(app, b2, kid, x3, current_time, app_after, r),
        r is Err,
    ensures
        r matches Err((e, d)) && match completion_read(b2, kid, x3) {
            None => e is FailedAuthentication && d is None && app_after == app,
            Some(completion) => exists|
                answer: (Option<(bool, App::Data)>, bool),
                judging: App,
            |
                {
                    &&& #[trigger] app.may_accept(
                        completion.s_remote,
                        completion.identity,
                        answer,
                        judging,
                    )
                    &&& answer.0 is None ==> e is Rejected
                    &&& answer.0 is Some ==> e is RatchetIoError || e is FailedAuthentication
                    &&& d is Some <==> answer.1 && !(e is RatchetIoError)
                    &&& d matches Some(p) ==> is_packet(
                        p@,
                        Some(b2.kid_send),
                        PACKET_TYPE_SESSION_REJECTED,
                        0,
                    )
                }
        },
{
}

/// What the responder may go by: a state that is stored for the initiator is accepted, and is no
/// downgrade; the empty one is accepted as a downgrade, where that is not disallowed; any other is
/// not.
pub proof fn law_ratchet_accepted(used: RatchetView, stored: RatchetStatesView, disallows: bool)
    ensures
        stored.first == Some(used) || stored.second == Some(used) ==> ratchet_judged(
            used,
            stored,
            disallows,
        ) == Some(false),
        stored.first != Some(used) && stored.second != Some(used) ==> ratchet_judged(
            used,
            stored,
            disallows,
        ) == if used.fingerprint is None && !disallows {
            Some(true)
        } else {
            None
        },
        empty_ratchet().fingerprint is None,
        empty_ratchet().chain_len == 0,
        empty_ratchet().key.len() == RATCHET_SIZE,
        forall|i: int| 0 <= i < RATCHET_SIZE ==> #[trigger] empty_ratchet().key[i] == 0,
{
}

} // verus!
