//! Whole key exchanges between two peers that behave as they should.

use vstd::prelude::*;

use crate::application::{ApplicationLayer, RatchetStatesView, Settings};
use crate::crypto::P384KeyPair;
use crate::kyber::kyber_decapsulated;
use crate::proto::{
    KYBER_CIPHERTEXTBYTES, KYBER_PUBLICKEYBYTES, PACKET_TYPE_HANDSHAKE_HELLO,
    PACKET_TYPE_HANDSHAKE_RESPONSE, RATCHET_SIZE,
};
use crate::ratchet_state::{empty_ratchet, RatchetView};
use crate::result::ZetaError;
use crate::wire::{law_nonce_carries, nonce_counter};
use crate::zeta::completion::{completion_read, established, CompletionView};
use crate::zeta::hello::{
    hello_answer, hello_counter, hello_read, offered_fingerprints, opened_session,
    response_counter, HelloView, StateB2View,
};
use crate::zeta::laws::{
    agree, law_acknowledgement_taken, law_completion_read, law_confirmation_taken,
    law_control_packet_authentic, law_hello_read, law_rekey_answer_read, law_rekey_offer_read,
    law_response_read, mirrored, opens_what_it_seals,
};
use crate::zeta::rekey::{rekey_answered, RekeyView};
use crate::zeta::response::{
    a3_session, choice_of, completion, completion_packet, downgraded_choice, kid_opened,
    remembered_choice, response_read, states_after, ChoiceView, ResponseView,
};
use crate::zeta::{PacketView, ZetaView};

verus! {

/// A handshake: the keys that both peers hold and draw, and what else they bring into it.
pub struct HandshakeRun<App: ApplicationLayer> {
    pub s_initiator: App::KeyPair,
    pub s_initiator_public: App::PublicKey,
    pub e_initiator: App::KeyPair,
    pub e_initiator_public: App::PublicKey,
    pub e1_public: Seq<u8>,
    pub e1_secret: Seq<u8>,
    pub kid_initiator: u32,
    /// The ratchet states that the initiator remembers.
    pub states: RatchetStatesView,
    pub identity: Seq<u8>,
    pub initiator_data: App::Data,
    pub initiator_settings: Settings,
    pub s_responder: App::KeyPair,
    pub s_responder_public: App::PublicKey,
    pub e_responder: App::KeyPair,
    pub e_responder_public: App::PublicKey,
    pub ekem1: Seq<u8>,
    pub ekem1_secret: Seq<u8>,
    pub kid_responder: u32,
    /// The ratchet state that the responder goes by.
    pub ratchet_state: RatchetView,
    pub responder_data: App::Data,
    pub responder_settings: Settings,
    pub initiator_draw: u64,
    pub responder_draw: u64,
    pub time: i64,
}

impl<App: ApplicationLayer> HandshakeRun<App> {
    /// The initiator and its hello.
    pub open spec fn hello_sent(self) -> Option<(ZetaView<App>, PacketView)> {
        opened_session::<App>(
            self.initiator_settings,
            self.kid_initiator,
            self.s_responder_public,
            self.initiator_data,
            self.states,
            self.e_initiator,
            self.e1_public,
            self.e1_secret,
            self.time,
        )
    }

    /// What the responder reads from the hello.
    pub open spec fn hello_taken(self) -> Option<HelloView<App>> {
        match self.hello_sent() {
            None => None,
            Some((_, packet)) => hello_read::<App>(
                self.s_responder,
                nonce_counter(packet.nonce),
                packet.payload,
            ),
        }
    }

    /// The responder and its response.
    pub open spec fn response_sent(self) -> Option<(StateB2View<App>, PacketView)> {
        match self.hello_taken() {
            None => None,
            Some(hello) => hello_answer::<App>(
                hello,
                self.ratchet_state,
                self.kid_responder,
                self.e_responder,
                self.ekem1,
                self.ekem1_secret,
            ),
        }
    }

    /// What the initiator reads from the response.
    pub open spec fn response_taken(self) -> Option<ResponseView<App>> {
        match (self.hello_sent(), self.response_sent()) {
            (Some((zeta, _)), Some((_, packet))) => response_read(
                zeta,
                packet.kid,
                nonce_counter(packet.nonce),
                packet.payload,
            ),
            _ => None,
        }
    }

    /// The ratchet key by which the initiator goes on: one that it remembers, or else the
    /// all-zero key.
    pub open spec fn key_chosen(self) -> Option<ChoiceView> {
        match self.response_taken() {
            None => None,
            Some(response) => match remembered_choice(response, self.states) {
                Some(choice) => Some(choice),
                None => downgraded_choice(response, self.states),
            },
        }
    }

    /// The initiator after its completion, and the completion.
    pub open spec fn completion_sent(self) -> Option<(ZetaView<App>, PacketView)> {
        match (self.hello_sent(), self.response_taken(), self.key_chosen()) {
            (Some((zeta, _)), Some(response), Some(choice)) => match self.s_initiator.shared(
                response.e_remote,
            ) {
                None => None,
                Some(se) => {
                    let (noise, x3) = completion::<App>(
                        choice.noise,
                        self.s_initiator.public_encoded(),
                        se,
                        self.identity,
                    );
                    Some(
                        (
                            a3_session(
                                zeta,
                                self.initiator_settings,
                                noise,
                                states_after::<App>(noise, choice),
                                choice.kid,
                                x3,
                                self.time,
                            ),
                            completion_packet(choice.kid, x3),
                        ),
                    )
                },
            },
            _ => None,
        }
    }

    /// What the responder reads from the completion.
    pub open spec fn completion_taken(self) -> Option<CompletionView<App>> {
        match (self.response_sent(), self.completion_sent()) {
            (Some((b2, _)), Some((_, packet))) => completion_read(b2, packet.kid, packet.payload),
            _ => None,
        }
    }

    /// The session of the responder, and its key confirmation.
    pub open spec fn confirmation_sent(self) -> Option<(ZetaView<App>, PacketView)> {
        match (self.response_sent(), self.completion_taken()) {
            (Some((b2, _)), Some(completion)) => Some(
                established(
                    b2,
                    self.responder_settings,
                    completion,
                    self.responder_data,
                    self.time,
                ),
            ),
            _ => None,
        }
    }

    /// The session of the initiator once it has taken the key confirmation, before its
    /// acknowledgement.
    pub open spec fn confirmation_taken(self) -> Option<ZetaView<App>> {
        match (self.completion_sent(), self.confirmation_sent()) {
            (Some((zeta, _)), Some((_, packet))) => if zeta.awaits_confirmation()
                && zeta.confirmation_checked(packet.kid, packet.nonce, packet.payload) == Ok::<
                bool,
                ZetaError,
            >(true) {
                Some(
                    zeta.switched().settled(
                        self.initiator_settings,
                        self.initiator_draw,
                        self.time,
                    ),
                )
            } else {
                None
            },
            _ => None,
        }
    }

    /// The sessions of both peers once the responder has taken the acknowledgement.
    pub open spec fn concluded(self) -> Option<(ZetaView<App>, ZetaView<App>)> {
        match (self.confirmation_taken(), self.confirmation_sent()) {
            (Some(initiator), Some((responder, _))) => match initiator.acknowledgement() {
                None => None,
                Some(packet) => if responder.acknowledgement_checked(
                    packet.kid,
                    packet.nonce,
                    packet.payload,
                ) == Ok::<(), ZetaError>(()) {
                    Some(
                        (
                            initiator.acknowledged(),
                            responder.settled(
                                self.responder_settings,
                                self.responder_draw,
                                self.time,
                            ),
                        ),
                    )
                } else {
                    None
                },
            },
            _ => None,
        }
    }

    /// The primitives do what their names say on the keys of this handshake: the cipher opens
    /// what it has sealed, the key pairs agree, and the Kyber ciphertext yields its secret. The
    /// ids are not zero, and the keys and fingerprints have their sizes.
    pub open spec fn well_behaved(self) -> bool {
        &&& opens_what_it_seals::<App::Aead>()
        &&& agree::<App>(
            self.e_initiator,
            self.e_initiator_public,
            self.s_responder,
            self.s_responder_public,
        )
        &&& agree::<App>(
            self.e_initiator,
            self.e_initiator_public,
            self.e_responder,
            self.e_responder_public,
        )
        &&& agree::<App>(
            self.s_initiator,
            self.s_initiator_public,
            self.e_responder,
            self.e_responder_public,
        )
        &&& kyber_decapsulated(self.ekem1, self.e1_secret) == Some(self.ekem1_secret)
        &&& self.e1_public.len() == KYBER_PUBLICKEYBYTES
        &&& self.ekem1.len() == KYBER_CIPHERTEXTBYTES
        &&& offered_fingerprints(self.states).len() <= 2 * RATCHET_SIZE
        &&& self.kid_initiator != 0
        &&& self.kid_responder != 0
    }

    /// The responder goes by a ratchet state of the initiator, or by the empty one, and no ratchet
    /// key that the initiator tries before it authenticates the response.
    pub open spec fn goes_by_known_state(self) -> bool {
        let opened_by = |state: Option<RatchetView>| self.response_taken() matches Some(response)
            && choice_of(response, state) is Some;
        ||| self.states.first == Some(self.ratchet_state)
        ||| self.states.second == Some(self.ratchet_state) && !opened_by(self.states.first)
        ||| self.ratchet_state == empty_ratchet() && !opened_by(self.states.first) && !opened_by(
            self.states.second,
        )
    }
}

/// The response of a well-behaved responder is read by the initiator, and the ratchet key that the
/// responder went by yields its id.
proof fn lemma_response_taken<App: ApplicationLayer>(run: HandshakeRun<App>)
    requires
        run.well_behaved(),
    ensures
        run.hello_sent() matches Some((zeta, x1)) && run.hello_taken() matches Some(hello)
            && run.response_sent() matches Some((b2, x2)) && run.response_taken() matches Some(
            response,
        ) && {
            &&& hello.kid_send == run.kid_initiator
            &&& hello.e_remote == run.e_initiator_public
            &&& hello.e1 == run.e1_public
            &&& hello.fingerprints == offered_fingerprints(run.states)
            &&& hello.noise == zeta.beta->A1_noise
            &&& b2.kid_send == run.kid_initiator
            &&& b2.kid_recv == run.kid_responder
            &&& b2.e_secret == run.e_responder
            &&& b2.ratchet_state == run.ratchet_state
            &&& response.e_remote == run.e_responder_public
            &&& kid_opened(response, run.ratchet_state.key) == Some((run.kid_responder, b2.noise))
        },
{
    let fingerprints = offered_fingerprints(run.states);
    let (zeta, x1) = run.hello_sent()->0;
    law_hello_read::<App>(
        run.s_responder,
        run.s_responder_public,
        run.e_initiator,
        run.e_initiator_public,
        run.kid_initiator,
        run.e1_public,
        fingerprints,
    );
    law_nonce_carries(PACKET_TYPE_HANDSHAKE_HELLO, hello_counter(x1.payload));
    let hello = run.hello_taken()->0;
    let (b2, x2) = run.response_sent()->0;
    law_response_read(
        zeta,
        run.kid_initiator,
        run.e_initiator,
        run.e_initiator_public,
        run.e_responder,
        run.e_responder_public,
        run.ekem1,
        run.ekem1_secret,
        run.ratchet_state.key,
        run.kid_responder,
    );
    law_nonce_carries(PACKET_TYPE_HANDSHAKE_RESPONSE, response_counter(x2.payload));
}

/// A handshake of two peers that behave as they should completes. The responder learns the static
/// key and the identity of the initiator; both come to sessions whose keys are confirmed; what one
/// end sends with, the other end receives with, packets and headers alike; and both have the same
/// ratchet state for the next handshake.
pub proof fn law_handshake_completes<App: ApplicationLayer>(run: HandshakeRun<App>)
    requires
        run.well_behaved(),
        run.goes_by_known_state(),
    ensures
        run.completion_taken() matches Some(completion) && completion.s_remote
            == run.s_initiator_public && completion.identity == run.identity,
        run.concluded() matches Some((initiator, responder)) && {
            &&& initiator.beta is S2
            &&& responder.beta is S2
            &&& mirrored(initiator.key(false), responder.key(false))
            &&& initiator.key(false).full()
            &&& initiator.hk_send == responder.hk_recv
            &&& initiator.hk_recv == responder.hk_send
            &&& initiator.ratchet_states == responder.ratchet_states
        },
{
    lemma_response_taken(run);
    let (zeta, x1) = run.hello_sent()->0;
    let (b2, x2) = run.response_sent()->0;
    let response = run.response_taken()->0;
    let choice = run.key_chosen()->0;
    assert(run.key_chosen() is Some && choice.kid == run.kid_responder && choice.noise == b2.noise
        && choice.chain_len == run.ratchet_state.chain_len);
    law_completion_read(
        b2,
        run.s_initiator,
        run.s_initiator_public,
        run.e_responder_public,
        run.identity,
    );
    let (a3, x3) = run.completion_sent()->0;
    let completion = run.completion_taken()->0;
    assert(zeta.key(true).recv.kid == Some(run.kid_initiator));
    let (s1, c1) = run.confirmation_sent()->0;
    assert(mirrored(a3.key(true), s1.key(false)));
    law_confirmation_taken(
        a3,
        b2,
        run.responder_settings,
        completion,
        run.responder_data,
        run.time,
    );
    let initiator = run.confirmation_taken()->0;
    assert(mirrored(initiator.key(false), s1.key(false)));
    assert(s1.wf());
    law_acknowledgement_taken(initiator, s1);
}

/// A rekeying: the two sessions that it starts from, and the keys that both peers hold and draw.
pub struct RekeyRun<App: ApplicationLayer> {
    pub offering: ZetaView<App>,
    pub answering: ZetaView<App>,
    pub s_offering: App::KeyPair,
    pub s_answering: App::KeyPair,
    pub e_offering: App::KeyPair,
    pub e_offering_public: App::PublicKey,
    pub e_answering: App::KeyPair,
    pub e_answering_public: App::PublicKey,
    pub kid_offering: u32,
    pub kid_answering: u32,
    pub offering_settings: Settings,
    pub answering_settings: Settings,
    pub offering_draw: u64,
    pub answering_draw: u64,
    pub time: i64,
}

impl<App: ApplicationLayer> RekeyRun<App> {
    /// The session that offers a new key, and its offer.
    pub open spec fn offer_sent(self) -> Option<(ZetaView<App>, PacketView)> {
        self.offering.rekey_offered(
            self.offering_settings,
            self.kid_offering,
            self.s_offering,
            self.e_offering,
            self.time,
        )
    }

    /// What the other session reads from the offer.
    pub open spec fn offer_taken(self) -> Option<RekeyView<App>> {
        match self.offer_sent() {
            None => None,
            Some((_, packet)) => match self.answering.rekey_read(
                self.s_answering,
                packet.kid,
                packet.nonce,
                packet.payload,
            ) {
                Ok(offer) => Some(offer),
                Err(_) => None,
            },
        }
    }

    /// The session that has answered, and its answer.
    pub open spec fn answer_sent(self) -> Option<(ZetaView<App>, PacketView)> {
        match self.offer_taken() {
            None => None,
            Some(offer) => match rekey_answered(
                offer,
                self.kid_answering,
                self.s_answering,
                self.e_answering,
            ) {
                None => None,
                Some((noise, inner)) => {
                    let packet = self.answering.rekey_answer_packet(inner);
                    Some(
                        (
                            self.answering.r2_session(
                                self.answering_settings,
                                noise,
                                offer.kid_send,
                                self.kid_answering,
                                packet.payload,
                                self.time,
                            ),
                            packet,
                        ),
                    )
                },
            },
        }
    }

    /// The offering session once it has taken the answer, and its key confirmation.
    pub open spec fn confirmation_sent(self) -> Option<(ZetaView<App>, PacketView)> {
        match (self.offer_sent(), self.answer_sent()) {
            (Some((r1, _)), Some((_, packet))) => match r1.rekey_answer_read(
                packet.kid,
                packet.nonce,
                packet.payload,
            ) {
                Err(_) => None,
                Ok(answer) => Some(
                    (
                        r1.s1_session(
                            self.offering_settings,
                            answer.noise,
                            answer.kid_send,
                            self.time,
                        ),
                        r1.rekey_confirmation(answer.noise, answer.kid_send),
                    ),
                ),
            },
            _ => None,
        }
    }

    /// The answering session once it has taken the key confirmation, before its acknowledgement.
    pub open spec fn confirmation_taken(self) -> Option<ZetaView<App>> {
        match (self.answer_sent(), self.confirmation_sent()) {
            (Some((r2, _)), Some((_, packet))) => if r2.awaits_confirmation()
                && r2.confirmation_checked(packet.kid, packet.nonce, packet.payload) == Ok::<
                bool,
                ZetaError,
            >(true) {
                Some(
                    r2.switched().settled(self.answering_settings, self.answering_draw, self.time),
                )
            } else {
                None
            },
            _ => None,
        }
    }

    /// Both sessions once the offering one has taken the acknowledgement.
    pub open spec fn concluded(self) -> Option<(ZetaView<App>, ZetaView<App>)> {
        match (self.confirmation_sent(), self.confirmation_taken()) {
            (Some((s1, _)), Some(answering)) => match answering.acknowledgement() {
                None => None,
                Some(packet) => if s1.acknowledgement_checked(
                    packet.kid,
                    packet.nonce,
                    packet.payload,
                ) == Ok::<(), ZetaError>(()) {
                    Some(
                        (
                            s1.settled(self.offering_settings, self.offering_draw, self.time),
                            answering.acknowledged(),
                        ),
                    )
                } else {
                    None
                },
            },
            _ => None,
        }
    }

    /// The primitives do what their names say on the keys of this rekeying: the cipher opens what
    /// it has sealed, and the key pairs agree. The ids are not zero.
    pub open spec fn well_behaved(self) -> bool {
        &&& opens_what_it_seals::<App::Aead>()
        &&& agree::<App>(
            self.s_offering,
            self.answering.s_remote,
            self.s_answering,
            self.offering.s_remote,
        )
        &&& agree::<App>(
            self.e_offering,
            self.e_offering_public,
            self.s_answering,
            self.offering.s_remote,
        )
        &&& agree::<App>(
            self.e_offering,
            self.e_offering_public,
            self.e_answering,
            self.e_answering_public,
        )
        &&& self.kid_offering != 0
        &&& self.kid_answering != 0
    }

    /// The two sessions are the ends of one, as a handshake or a rekeying leaves them: the current
    /// keys are mirrored, the ratchet states are the same, and the counters are not used up. The
    /// answering one may have offered a new key of its own, and give way.
    pub open spec fn starts_established(self) -> bool {
        &&& self.offering.wf()
        &&& self.offering.beta is S2
        &&& self.answering.wf()
        &&& self.answering.should_rekey_as_bob()
        &&& mirrored(self.offering.key(false), self.answering.key(false))
        &&& self.offering.ratchet_states.first == self.answering.ratchet_states.first
        &&& self.offering.send_counter + 2 <= u64::MAX
        &&& self.answering.send_counter + 2 <= u64::MAX
    }
}

/// A rekeying between the two ends of a session completes: both come to new keys, which are
/// confirmed; what one end sends with, the other end receives with; and both have the same ratchet
/// state.
pub proof fn law_rekeying_completes<App: ApplicationLayer>(run: RekeyRun<App>)
    requires
        run.well_behaved(),
        run.starts_established(),
    ensures
        run.concluded() matches Some((offering, answering)) && {
            &&& offering.beta is S2
            &&& answering.beta is S2
            &&& mirrored(offering.key(false), answering.key(false))
            &&& offering.key(false).full()
            &&& offering.key(false).recv.kid == Some(run.kid_offering)
            &&& answering.key(false).recv.kid == Some(run.kid_answering)
            &&& offering.ratchet_states.first == answering.ratchet_states.first
        },
{
    law_rekey_offer_read(
        run.offering,
        run.answering,
        run.offering_settings,
        run.kid_offering,
        run.s_offering,
        run.s_answering,
        run.e_offering,
        run.e_offering_public,
        run.time,
    );
    let (r1, k1) = run.offer_sent()->0;
    let offer = run.offer_taken()->0;
    law_rekey_answer_read(
        r1,
        run.answering,
        offer,
        run.kid_answering,
        run.s_answering,
        run.e_offering,
        run.e_answering,
        run.e_answering_public,
    );
    let (r2, k2) = run.answer_sent()->0;
    let (s1, c1) = run.confirmation_sent()->0;
    assert(r1.key(true).recv.kid == Some(run.kid_offering));
    assert(mirrored(s1.key(false), r2.key(true)));
    law_control_packet_authentic::<App>(s1.key(false).send.kek->0, c1.nonce);
    let answering = run.confirmation_taken()->0;
    assert(mirrored(answering.key(false), s1.key(false)));
    assert(s1.wf());
    law_acknowledgement_taken(answering, s1);
}

} // verus!
