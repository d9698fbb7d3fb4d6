//! Whole exchanges between two ends, call by call: each packet that a call yields is what the next
//! call, at the other end, takes.

use vstd::prelude::*;

use crate::application::{ApplicationLayer, RatchetStates, RatchetStatesView, Settings};
use crate::crypto::{P384KeyPair, P384PublicKey};
use crate::kyber::{is_encapsulation, is_kyber_pair, kyber_decapsulated};
use crate::proto::{
    KYBER_CIPHERTEXTBYTES, KYBER_PUBLICKEYBYTES, PACKET_TYPE_HANDSHAKE_HELLO,
    PACKET_TYPE_HANDSHAKE_RESPONSE, RATCHET_SIZE,
};
use crate::result::{OpenError, ZetaError};
use crate::wire::{law_nonce_carries, nonce_counter};
use crate::zeta::completion::{completion_handled, completion_read};
use crate::zeta::hello::{
    hello_answer, hello_answered, hello_counter, hello_handled, hello_read, offered_fingerprints,
    opened_session, response_counter, session_opened, StateB2,
};
use crate::zeta::laws::{
    agree, law_acknowledgement_taken, law_completion_read, law_control_packet_authentic,
    law_hello_read, law_rekey_answer_read, law_rekey_offer_read, law_response_read, mirrored,
    opens_what_it_seals,
};
use crate::zeta::opening::law_hello_answered;
use crate::zeta::outcomes::storage_works;
use crate::zeta::rekey::rekey_answered;
use crate::zeta::response::{choice_of, remembered_choice, response_handled, response_read};
use crate::zeta::{Packet, Zeta, ZetaView};

verus! {

/// The public key of a pair.
pub open spec fn public_of<App: ApplicationLayer>(pair: App::KeyPair) -> App::PublicKey {
    App::PublicKey::decoded(pair.public_encoded())->0
}

/// Any two key pairs agree on one secret.
pub open spec fn pairs_agree<App: ApplicationLayer>() -> bool {
    forall|a: App::KeyPair, b: App::KeyPair|
        #[trigger] agree::<App>(a, public_of::<App>(a), b, public_of::<App>(b))
}

/// A Kyber ciphertext yields the secret that was put into it to the holder of the key.
pub open spec fn kyber_yields() -> bool {
    forall|public: Seq<u8>, secret: Seq<u8>, ct: Seq<u8>, ss: Seq<u8>|
        #[trigger] is_kyber_pair(public, secret) && #[trigger] is_encapsulation(public, ct, ss)
            ==> kyber_decapsulated(ct, secret) == Some(ss)
}

/// A rekeying between the two ends of a session goes through, call by call. The offer of one end is
/// answered by the other; the answer is taken, and the new key confirmed; the confirmation is
/// taken, and acknowledged; and the acknowledgement is taken. Both ends then have the same new
/// keys, each under the id that it gave them, and the same new ratchet state, which each has
/// stored.
pub proof fn law_rekeying_goes_through<App: ApplicationLayer>(
    a: ZetaView<App>,
    b: ZetaView<App>,
    s_a: App::KeyPair,
    s_b: App::KeyPair,
    kid_a: u32,
    kid_b: u32,
    settings_a: Settings,
    time1: i64,
    a1: ZetaView<App>,
    offered: Result<Packet, ZetaError>,
    app_b: App,
    time2: i64,
    b1: ZetaView<App>,
    app_b1: App,
    answered: Result<Packet, ZetaError>,
    app_a: App,
    time3: i64,
    a2: ZetaView<App>,
    app_a1: App,
    confirmed: Result<Packet, ZetaError>,
    app_b2: App,
    time4: i64,
    b2: ZetaView<App>,
    app_b3: App,
    acknowledged: Result<Packet, ZetaError>,
)
    requires
        opens_what_it_seals::<App::Aead>(),
        pairs_agree::<App>(),
        storage_works::<App>(),
        a.wf(),
        b.wf(),
        a.beta is S2,
        b.beta is S2 || (b.beta is R1 && b.was_bob),
        mirrored(a.key(false), b.key(false)),
        a.ratchet_states.first == b.ratchet_states.first,
        a.s_remote == public_of::<App>(s_b),
        b.s_remote == public_of::<App>(s_a),
        a.send_counter + 2 <= u64::MAX,
        b.send_counter + 2 <= u64::MAX,
        kid_a != 0,
        kid_b != 0,
        a.rekey_offer_handled(settings_a, kid_a, s_a, time1, a1, offered),
        offered matches Ok(k1) ==> b.rekey_handled(
            app_b,
            kid_b,
            s_b,
            k1@.kid,
            k1@.nonce,
            k1@.payload,
            time2,
            b1,
            app_b1,
            answered,
        ),
        answered matches Ok(k2) ==> a1.rekey_completed(
            app_a,
            k2@.kid,
            k2@.nonce,
            k2@.payload,
            time3,
            a2,
            app_a1,
            confirmed,
        ),
        confirmed matches Ok(c1) ==> b1.confirmation_handled(
            app_b2,
            c1@.kid,
            c1@.nonce,
            c1@.payload,
            time4,
            b2,
            app_b3,
            acknowledged,
        ),
    ensures
        offered is Ok,
        answered is Ok,
        confirmed is Ok,
        acknowledged matches Ok(c2) && a2.acknowledgement_checked(
            c2@.kid,
            c2@.nonce,
            c2@.payload,
        ) is Ok,
        a2.beta is S1,
        b2.beta is S2,
        mirrored(a2.key(false), b2.key(false)),
        a2.key(false).full(),
        a2.key(false).recv.kid == Some(kid_a),
        b2.key(false).recv.kid == Some(kid_b),
        a2.ratchet_states.first == b2.ratchet_states.first,
        b2.ratchet_states.second is None,
        exists|stored: RatchetStatesView, saved: Result<(), std::io::Error>|
            {
                &&& #[trigger] app_a.may_save_ratchet_state(
                    a.s_remote,
                    a.application_data,
                    a.ratchet_states,
                    stored,
                    saved,
                    app_a1,
                )
                &&& saved is Ok
                &&& stored.first == a2.ratchet_states.first
                &&& stored.second is None
            },
        exists|stored: RatchetStatesView, saved: Result<(), std::io::Error>|
            {
                &&& #[trigger] app_b.may_save_ratchet_state(
                    b.s_remote,
                    b.application_data,
                    b.ratchet_states,
                    stored,
                    saved,
                    app_b1,
                )
                &&& saved is Ok
                &&& stored.first == b2.ratchet_states.first
                &&& stored.second == b.ratchet_states.first
            },
{
    assert(agree::<App>(s_a, public_of::<App>(s_a), s_b, public_of::<App>(s_b)));
    let e1 = choose|e_secret: App::KeyPair|
        e_secret.may_generate() && match #[trigger] a.rekey_offered(
            settings_a,
            kid_a,
            s_a,
            e_secret,
            time1,
        ) {
            None => a1 == a && offered is Err,
            Some((zeta, packet)) => offered matches Ok(p) && p@ == packet && a1 == zeta,
        };
    assert(agree::<App>(e1, public_of::<App>(e1), s_b, public_of::<App>(s_b)));
    law_rekey_offer_read(a, b, settings_a, kid_a, s_a, s_b, e1, public_of::<App>(e1), time1);
    let k1 = offered->Ok_0;
    let offer = b.rekey_read(s_b, k1@.kid, k1@.nonce, k1@.payload)->Ok_0;
    let e2 = choose|e_secret: App::KeyPair|
        e_secret.may_generate() && match #[trigger] rekey_answered(offer, kid_b, s_b, e_secret) {
            None => answered is Err,
            Some((noise, inner)) => exists|saved: Result<(), std::io::Error>|
                {
                    &&& #[trigger] app_b.may_save_ratchet_state(
                        b.s_remote,
                        b.application_data,
                        b.ratchet_states,
                        b.ratchet_advanced(noise, b.ratchet_states.first),
                        saved,
                        app_b1,
                    )
                    &&& saved is Ok ==> {
                        &&& answered matches Ok(p)
                        &&& p@ == b.rekey_answer_packet(inner)
                        &&& b1 == b.r2_session(
                            app_b.settings_spec(),
                            noise,
                            offer.kid_send,
                            kid_b,
                            p@.payload,
                            time2,
                        )
                    }
                },
        };
    assert(agree::<App>(e1, public_of::<App>(e1), e2, public_of::<App>(e2)));
    law_rekey_answer_read(a1, b, offer, kid_b, s_b, e1, e2, public_of::<App>(e2));
    assert(answered is Ok);
    assert(confirmed is Ok);
    assert(mirrored(a2.key(false), b1.key(true)));
    let c1 = confirmed->Ok_0;
    law_control_packet_authentic::<App>(a2.key(false).send.kek->0, c1@.nonce);
    assert(b1.confirmation_checked(c1@.kid, c1@.nonce, c1@.payload) == Ok::<bool, ZetaError>(
        true,
    ));
    let draw = choose|draw: u64| #[trigger]
        b1.switched().settled(app_b2.settings_spec(), draw, time4).acknowledges(b2, acknowledged);
    let settled = b1.switched().settled(app_b2.settings_spec(), draw, time4);
    assert(mirrored(settled.key(false), a2.key(false)));
    assert(a2.wf());
    law_acknowledgement_taken(settled, a2);
}

/// A handshake between two peers who know each other goes through, call by call. The hello of the
/// initiator is answered by the responder; the response is taken, and completed; the completion is
/// taken, and the first key confirmed; the confirmation is taken, and acknowledged; and the
/// acknowledgement is taken. The responder learns the static key and the identity of the initiator.
/// Both ends then have the same keys, each under the id that it gave them, the same keys for
/// headers, and the same new ratchet state, and neither took the handshake for a downgrade.
///
/// The responder goes by the first ratchet state that the initiator remembers, and so do the states
/// that it has stored; that holds of peers who have never met, and of peers whose last exchange
/// went through.
pub proof fn law_handshake_goes_through<App: ApplicationLayer>(
    s_a: App::KeyPair,
    s_b: App::KeyPair,
    kid_a: u32,
    kid_b: u32,
    data: App::Data,
    identity: Seq<u8>,
    app_a: App,
    time0: i64,
    app_a1: App,
    opened: Result<(Zeta<App>, Packet), OpenError>,
    app_b: App,
    app_b1: App,
    answered: Result<(StateB2<App>, Packet), ZetaError>,
    app_a2: App,
    time1: i64,
    a3: ZetaView<App>,
    app_a3: App,
    completed: Result<(Packet, bool), ZetaError>,
    app_b2: App,
    time2: i64,
    app_b3: App,
    made: Result<(Zeta<App>, Packet, bool), (ZetaError, Option<Packet>)>,
    app_a4: App,
    time3: i64,
    s2: ZetaView<App>,
    app_a5: App,
    acknowledged: Result<Packet, ZetaError>,
)
    requires
        opens_what_it_seals::<App::Aead>(),
        pairs_agree::<App>(),
        kyber_yields(),
        storage_works::<App>(),
        kid_a != 0,
        kid_b != 0,
        session_opened(
            app_a,
            kid_a,
            public_of::<App>(s_b),
            data,
            time0,
            app_a1,
            opened,
        ),
        opened matches Ok((z, x1)) && offered_fingerprints(z@.ratchet_states).len() <= 2
            * RATCHET_SIZE,
        opened matches Ok((z, x1)) && hello_handled(
            app_b,
            kid_b,
            s_b,
            nonce_counter(x1@.nonce),
            x1@.payload,
            app_b1,
            answered,
        ),
        opened matches Ok((z, x1)) && (answered matches Ok((b2, x2)) && Some(b2@.ratchet_state)
            == z@.ratchet_states.first),
        opened matches Ok((z, x1)) && (answered matches Ok((b2, x2)) && response_handled(
            app_a2,
            z@,
            x2@.kid,
            nonce_counter(x2@.nonce),
            x2@.payload,
            s_a,
            identity,
            time1,
            a3,
            app_a3,
            completed,
        )),
        answered matches Ok((b2, x2)) && (completed matches Ok((x3, downgraded))
            ==> completion_handled(app_b2, b2@, x3@.kid, x3@.payload, time2, app_b3, made)),
        forall|
            key: App::PublicKey,
            shown: Seq<u8>,
            answer: (Option<(bool, App::Data)>, bool),
            next: App,
        |
            #[trigger] app_b2.may_accept(key, shown, answer, next) ==> answer.0 is Some,
        answered matches Ok((b2, x2)) && forall|
            any: App,
            key: App::PublicKey,
            data_b: App::Data,
            restored: Result<RatchetStates, std::io::Error>,
            next: App,
        |
            #[trigger]
            any.may_restore_by_identity(key, data_b, restored, next) ==> (restored matches Ok(
                stored,
            ) && (stored@.first == Some(b2@.ratchet_state) || stored@.second == Some(
                b2@.ratchet_state,
            ))),
        made matches Ok((z, c1, downgraded)) ==> a3.confirmation_handled(
            app_a4,
            c1@.kid,
            c1@.nonce,
            c1@.payload,
            time3,
            s2,
            app_a5,
            acknowledged,
        ),
    ensures
        completed matches Ok((x3, downgraded)) && {
            &&& !downgraded
            &&& answered matches Ok((b2, x2))
            &&& completion_read(b2@, x3@.kid, x3@.payload) matches Some(read)
            &&& read.s_remote == public_of::<App>(s_a)
            &&& read.identity == identity
        },
        made matches Ok((z, c1, downgraded)) && !downgraded && {
            &&& acknowledged matches Ok(c2)
            &&& z@.acknowledgement_checked(c2@.kid, c2@.nonce, c2@.payload) is Ok
            &&& s2.beta is S2
            &&& z@.beta is S1
            &&& mirrored(s2.key(false), z@.key(false))
            &&& s2.key(false).full()
            &&& s2.key(false).recv.kid == Some(kid_a)
            &&& z@.key(false).recv.kid == Some(kid_b)
            &&& s2.hk_send == z@.hk_recv
            &&& s2.hk_recv == z@.hk_send
            &&& s2.ratchet_states == z@.ratchet_states
            &&& z@.s_remote == public_of::<App>(s_a)
            &&& s2.s_remote == public_of::<App>(s_b)
            &&& z@.was_bob && !s2.was_bob
        },
{
    let z = (opened->Ok_0).0@;
    let x1 = (opened->Ok_0).1@;
    let restored = choose|restored: Result<RatchetStates, std::io::Error>|
        {
            &&& #[trigger] app_a.may_restore_by_identity(
                public_of::<App>(s_b),
                data,
                restored,
                app_a1,
            )
            &&& restored matches Ok(states)
            &&& exists|e_secret: App::KeyPair, e1_public: Seq<u8>, e1_secret: Seq<u8>|
                {
                    &&& e_secret.may_generate()
                    &&& is_kyber_pair(e1_public, e1_secret)
                    &&& e1_public.len() == KYBER_PUBLICKEYBYTES
                    &&& #[trigger] opened_session::<App>(
                        app_a.settings_spec(),
                        kid_a,
                        public_of::<App>(s_b),
                        data,
                        states@,
                        e_secret,
                        e1_public,
                        e1_secret,
                        time0,
                    ) == Some((z, x1))
                }
        };
    let states = (restored->Ok_0)@;
    let (e_a, e1_public, e1_secret) = choose|
        e_secret: App::KeyPair,
        e1_public: Seq<u8>,
        e1_secret: Seq<u8>,
    |
        {
            &&& e_secret.may_generate()
            &&& is_kyber_pair(e1_public, e1_secret)
            &&& e1_public.len() == KYBER_PUBLICKEYBYTES
            &&& #[trigger] opened_session::<App>(
                app_a.settings_spec(),
                kid_a,
                public_of::<App>(s_b),
                data,
                states,
                e_secret,
                e1_public,
                e1_secret,
                time0,
            ) == Some((z, x1))
        };
    assert(agree::<App>(e_a, public_of::<App>(e_a), s_b, public_of::<App>(s_b)));
    let fingerprints = offered_fingerprints(states);
    law_hello_read::<App>(
        s_b,
        public_of::<App>(s_b),
        e_a,
        public_of::<App>(e_a),
        kid_a,
        e1_public,
        fingerprints,
    );
    law_nonce_carries(PACKET_TYPE_HANDSHAKE_HELLO, hello_counter(x1.payload));
    let hello = hello_read::<App>(s_b, nonce_counter(x1.nonce), x1.payload)->0;
    assert(hello.e1 == e1_public && hello.kid_send == kid_a);
    let b2 = (answered->Ok_0).0@;
    let x2 = (answered->Ok_0).1@;
    law_hello_answered(
        app_b,
        kid_b,
        s_b,
        nonce_counter(x1.nonce),
        x1.payload,
        app_b1,
        answered,
    );
    assert(hello_answered(hello, b2.ratchet_state, kid_b, answered));
    let (e_b, ekem1, ekem1_secret) = choose|
        e_secret: App::KeyPair,
        ekem1: Seq<u8>,
        ekem1_secret: Seq<u8>,
    |
        {
            &&& e_secret.may_generate()
            &&& is_encapsulation(hello.e1, ekem1, ekem1_secret)
            &&& ekem1.len() == KYBER_CIPHERTEXTBYTES
            &&& #[trigger] hello_answer::<App>(
                hello,
                b2.ratchet_state,
                kid_b,
                e_secret,
                ekem1,
                ekem1_secret,
            ) == Some((b2, x2))
        };
    assert(is_kyber_pair(e1_public, e1_secret) && is_encapsulation(
        e1_public,
        ekem1,
        ekem1_secret,
    ));
    assert(agree::<App>(e_a, public_of::<App>(e_a), e_b, public_of::<App>(e_b)));
    law_response_read(
        z,
        kid_a,
        e_a,
        public_of::<App>(e_a),
        e_b,
        public_of::<App>(e_b),
        ekem1,
        ekem1_secret,
        b2.ratchet_state.key,
        kid_b,
    );
    law_nonce_carries(PACKET_TYPE_HANDSHAKE_RESPONSE, response_counter(x2.payload));
    let response = response_read(z, x2.kid, nonce_counter(x2.nonce), x2.payload)->0;
    let choice = choice_of(response, z.ratchet_states.first)->0;
    assert(remembered_choice(response, z.ratchet_states) == Some(choice));
    assert(agree::<App>(s_a, public_of::<App>(s_a), e_b, public_of::<App>(e_b)));
    law_completion_read(b2, s_a, public_of::<App>(s_a), public_of::<App>(e_b), identity);
    assert(completed is Ok);
    let x3 = (completed->Ok_0).0@;
    let completion = completion_read(b2, x3.kid, x3.payload)->0;
    assert(made is Ok);
    let zb = (made->Ok_0).0@;
    let c1 = (made->Ok_0).1@;
    assert(mirrored(a3.key(true), zb.key(false)));
    law_control_packet_authentic::<App>(zb.key(false).send.kek->0, c1.nonce);
    assert(a3.confirmation_checked(c1.kid, c1.nonce, c1.payload) == Ok::<bool, ZetaError>(true));
    let draw = choose|draw: u64| #[trigger]
        a3.switched().settled(app_a4.settings_spec(), draw, time3).acknowledges(s2, acknowledged);
    let settled = a3.switched().settled(app_a4.settings_spec(), draw, time3);
    assert(mirrored(settled.key(false), zb.key(false)));
    assert(zb.wf());
    law_acknowledgement_taken(settled, zb);
}

} // verus!
