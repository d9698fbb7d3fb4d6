//! What holds between the two ends of a session.
//!
//! The laws speak of any primitives that do what their names say: a cipher that opens what it
//! has sealed, key pairs that agree on one secret, an encapsulation that yields the secret that
//! was put into it.

use vstd::prelude::*;

use crate::application::{ApplicationLayer, RatchetStates, RatchetStatesView, Settings};
use crate::crypto::{AesGcmAead, P384KeyPair, P384PublicKey};
use crate::kyber::kyber_decapsulated;
use crate::proto::{
    lemma_short_counter, lemma_u32_be_roundtrip, lemma_u64_be_roundtrip, u32_be, u64_be,
    AES_GCM_TAG_SIZE,
    KYBER_CIPHERTEXTBYTES, KYBER_PUBLICKEYBYTES, P384_PUBLIC_KEY_SIZE, PACKET_TYPE_ACK,
    PACKET_TYPE_DATA, PACKET_TYPE_HANDSHAKE_COMPLETION, PACKET_TYPE_HANDSHAKE_HELLO,
    PACKET_TYPE_HANDSHAKE_RESPONSE, PACKET_TYPE_REKEY_COMPLETE, PACKET_TYPE_REKEY_INIT,
    RATCHET_SIZE,
};
use crate::ratchet_state::RatchetView;
use crate::result::ZetaError;
use crate::symmetric_state::Noise;
use crate::zeta::completion::{
    completion_handled, completion_read, established, ratchet_judged, rejection, CompletionView,
    COMPLETION_IDENTITY_START,
};
use crate::zeta::hello::{
    hello, hello_counter, hello_read, hello_start, response, response_counter, HelloView,
    StateB2View, HELLO_E1_END, HELLO_E_END, HELLO_PAYLOAD_START,
};
use crate::zeta::rekey::{
    rekey_answered, rekey_start, rekey_written, RekeyView, REKEY_END, REKEY_KID_END,
};
use crate::zeta::response::{
    a3_session, completion, kid_opened, response_handled, response_read, states_after, ChoiceView,
    ResponseView, RESPONSE_EKEM1_END, RESPONSE_PAYLOAD_END, RESPONSE_PAYLOAD_START,
};
use crate::zeta::sealed::{control_authentic, control_tag, packet_opened, packet_sealed};
use crate::zeta::{nonce_spec, BetaView, DualKeysView, Packet, Zeta, ZetaView};

verus! {

/// A cipher opens what it has sealed, into what was sealed.
pub open spec fn opens_what_it_seals<A: AesGcmAead>() -> bool {
    forall|key: Seq<u8>, nonce: Seq<u8>, aad: Seq<u8>, plain: Seq<u8>|
        #![trigger A::sealed(key, nonce, aad, plain)]
        #![trigger A::tag(key, nonce, aad, plain)]
        {
            let cipher = A::sealed(key, nonce, aad, plain);
            let tag = A::tag(key, nonce, aad, plain);
            &&& A::opened(key, nonce, aad, cipher, tag) == Some(plain)
            &&& cipher.len() == plain.len()
            &&& tag.len() == AES_GCM_TAG_SIZE
        }
}

/// `public` is the public key of `pair`.
pub open spec fn is_public_key<App: ApplicationLayer>(
    pair: App::KeyPair,
    public: App::PublicKey,
) -> bool {
    &&& App::PublicKey::decoded(pair.public_encoded()) == Some(public)
    &&& public.encoded() == pair.public_encoded()
    &&& pair.public_encoded().len() == P384_PUBLIC_KEY_SIZE
}

/// Two key pairs, with their public keys, agree on one secret.
pub open spec fn agree<App: ApplicationLayer>(
    a: App::KeyPair,
    a_public: App::PublicKey,
    b: App::KeyPair,
    b_public: App::PublicKey,
) -> bool {
    &&& is_public_key::<App>(a, a_public)
    &&& is_public_key::<App>(b, b_public)
    &&& a.shared(b_public) is Some
    &&& a.shared(b_public) == b.shared(a_public)
}

/// What one end sends with, the other end receives with, in both directions.
pub open spec fn mirrored(a: DualKeysView, b: DualKeysView) -> bool {
    a.send == b.recv && a.recv == b.send
}

/// Two nonces are the same only where the packet types and the counters are.
pub proof fn law_nonce_injective(type1: u8, counter1: u64, type2: u8, counter2: u64)
    requires
        nonce_spec(type1, counter1) == nonce_spec(type2, counter2),
    ensures
        type1 == type2,
        counter1 == counter2,
{
    let n1 = nonce_spec(type1, counter1);
    let n2 = nonce_spec(type2, counter2);
    assert(n1[3] == type1);
    assert(n2[3] == type2);
    assert(n1.subrange(4, 12) =~= u64_be(counter1));
    assert(n2.subrange(4, 12) =~= u64_be(counter2));
    lemma_u64_be_roundtrip(counter1);
    lemma_u64_be_roundtrip(counter2);
}

/// A packet that is sealed opens into what was sealed.
pub proof fn law_sealed_packet_opens<App: ApplicationLayer>(
    key: Seq<u8>,
    nonce: Seq<u8>,
    plain: Seq<u8>,
)
    requires
        opens_what_it_seals::<App::Aead>(),
    ensures
        packet_opened::<App>(key, nonce, packet_sealed::<App>(key, nonce, plain)) == Some(plain),
        packet_sealed::<App>(key, nonce, plain).len() == plain.len() + AES_GCM_TAG_SIZE,
{
    let cipher = App::Aead::sealed(key, nonce, seq![], plain);
    let tag = App::Aead::tag(key, nonce, seq![], plain);
    let packet = packet_sealed::<App>(key, nonce, plain);
    let i = packet.len() - AES_GCM_TAG_SIZE;
    assert(packet.subrange(0, i) =~= cipher);
    assert(packet.subrange(i, packet.len() as int) =~= tag);
}

/// A packet that carries nothing is authentic to whoever holds its key.
pub proof fn law_control_packet_authentic<App: ApplicationLayer>(key: Seq<u8>, nonce: Seq<u8>)
    requires
        opens_what_it_seals::<App::Aead>(),
    ensures
        control_authentic::<App>(key, nonce, control_tag::<App>(key, nonce)),
        control_tag::<App>(key, nonce).len() == AES_GCM_TAG_SIZE,
{
    assert(App::Aead::sealed(key, nonce, seq![], seq![]) =~= seq![]);
}

/// Data that one end sends, the other end receives: what comes out is the data, and behind it
/// the tag of the packet.
pub proof fn law_data_received<App: ApplicationLayer>(
    sender: ZetaView<App>,
    receiver: ZetaView<App>,
    is_next: bool,
    payload: Seq<u8>,
)
    requires
        opens_what_it_seals::<App::Aead>(),
        sender.wf(),
        sender.can_send(),
        sender.key(false).send.nk == receiver.key(is_next).recv.nk,
        receiver.keys_of(sender.key(false).send.kid->0) == Some(is_next),
    ensures
        ({
            let packet = sender.data_packet(payload);
            &&& receiver.received(packet.kid, packet.nonce, packet.payload) matches Ok(data)
            &&& data.len() == payload.len() + AES_GCM_TAG_SIZE
            &&& data.subrange(0, payload.len() as int) == payload
        }),
{
    let packet = sender.data_packet(payload);
    let nk = sender.key(false).send.nk->0;
    law_sealed_packet_opens::<App>(nk, packet.nonce, payload);
    let data = payload + packet.payload.subrange(
        packet.payload.len() - AES_GCM_TAG_SIZE,
        packet.payload.len() as int,
    );
    assert(data.subrange(0, payload.len() as int) =~= payload);
}

/// What comes under an id that no key of the session has, and what is shorter than a tag, is not
/// received.
pub proof fn law_data_refused<App: ApplicationLayer>(
    receiver: ZetaView<App>,
    kid: u32,
    n: Seq<u8>,
    packet: Seq<u8>,
)
    ensures
        packet.len() < AES_GCM_TAG_SIZE ==> receiver.received(kid, n, packet) == Err::<
            Seq<u8>,
            ZetaError,
        >(ZetaError::FailedAuthentication),
        packet.len() >= AES_GCM_TAG_SIZE && receiver.key(true).recv.kid != Some(kid)
            && receiver.key(false).recv.kid != Some(kid) ==> receiver.received(kid, n, packet)
            == Err::<Seq<u8>, ZetaError>(ZetaError::OutOfSequence),
{
}

/// An ephemeral key that one end writes, the other end reads, where its state is the same: the key
/// comes out, and the states are the same again.
pub proof fn law_ephemeral_key_read<App: ApplicationLayer>(
    noise: Noise,
    packet: Seq<u8>,
    e_secret: App::KeyPair,
    e_public: App::PublicKey,
)
    requires
        is_public_key::<App>(e_secret, e_public),
    ensures
        ({
            let (writer, written) = noise.e_written::<App>(packet, e_secret.public_encoded());
            let (reader, key) = noise.e_read::<App>(packet.len() as int, written);
            &&& reader == writer
            &&& key == Some(e_public)
            &&& written.len() == packet.len() + P384_PUBLIC_KEY_SIZE
            &&& written.subrange(0, packet.len() as int) == packet
        }),
{
    let written = packet + e_secret.public_encoded();
    assert(written.subrange(packet.len() as int, packet.len() + P384_PUBLIC_KEY_SIZE)
        =~= e_secret.public_encoded());
    assert(written.subrange(0, packet.len() as int) =~= packet);
}

/// A key that has been used too often sends one packet more and no other.
pub proof fn law_expires_after_uses<App: ApplicationLayer>(zeta: ZetaView<App>, settings: Settings)
    requires
        zeta.send_counter >= zeta.key_creation_counter + settings.expire_after_uses,
    ensures
        zeta.used(settings).beta is Null,
        !zeta.used(settings).can_send(),
{
}

/// The data packets of a session have different nonces, however far apart they are sent.
pub proof fn law_data_nonces_differ<App: ApplicationLayer>(
    earlier: ZetaView<App>,
    settings: Settings,
    later: ZetaView<App>,
    payload1: Seq<u8>,
    payload2: Seq<u8>,
)
    requires
        earlier.send_counter < u64::MAX,
        later.send_counter >= earlier.used(settings).send_counter,
    ensures
        earlier.data_packet(payload1).nonce != later.data_packet(payload2).nonce,
{
    if earlier.data_packet(payload1).nonce == later.data_packet(payload2).nonce {
        law_nonce_injective(
            PACKET_TYPE_DATA,
            earlier.send_counter,
            PACKET_TYPE_DATA,
            later.send_counter,
        );
    }
}

/// Whatever comes of a key confirmation, a rekeying offer or the answer to one, the counter of
/// the session never falls, and where a packet is sent it is the counter of that packet and
/// steps.
pub proof fn law_counter_steps<App: ApplicationLayer>(
    app: App,
    zeta: ZetaView<App>,
    kid_recv: u32,
    s_secret: App::KeyPair,
    kid: u32,
    n: Seq<u8>,
    packet: Seq<u8>,
    current_time: i64,
    after: ZetaView<App>,
    app_after: App,
    r: Result<Packet, ZetaError>,
)
    requires
        zeta.send_counter < u64::MAX,
        zeta.confirmation_handled(app, kid, n, packet, current_time, after, app_after, r)
            || zeta.rekey_offer_handled(
            app.settings_spec(),
            kid_recv,
            s_secret,
            current_time,
            after,
            r,
        ) || zeta.rekey_handled(
            app,
            kid_recv,
            s_secret,
            kid,
            n,
            packet,
            current_time,
            after,
            app_after,
            r,
        ) || zeta.rekey_completed(app, kid, n, packet, current_time, after, app_after, r),
    ensures
        after.send_counter >= zeta.send_counter,
        r matches Ok(p) ==> after.send_counter == zeta.send_counter + 1 && exists|t: u8|
            p@.nonce == #[trigger] nonce_spec(t, zeta.send_counter),
{
}

/// What an initiator writes into a completion, a responder whose state is the same reads from
/// it: the static key, the identity, and the same state thereafter.
pub proof fn law_completion_read<App: ApplicationLayer>(
    b2: StateB2View<App>,
    s_secret: App::KeyPair,
    s_public: App::PublicKey,
    e_public: App::PublicKey,
    identity: Seq<u8>,
)
    requires
        opens_what_it_seals::<App::Aead>(),
        agree::<App>(s_secret, s_public, b2.e_secret, e_public),
    ensures
        ({
            let (noise, x3) = completion::<App>(
                b2.noise,
                s_secret.public_encoded(),
                s_secret.shared(e_public)->0,
                identity,
            );
            completion_read(b2, b2.kid_recv, x3) == Some(
                CompletionView::<App> { noise, s_remote: s_public, identity },
            )
        }),
{
    let se = s_secret.shared(e_public)->0;
    let (noise, x3) = completion::<App>(b2.noise, s_secret.public_encoded(), se, identity);
    let n = nonce_spec(PACKET_TYPE_HANDSHAKE_COMPLETION, 1);
    let cipher = App::Aead::sealed(b2.noise.k, n, b2.noise.h, s_secret.public_encoded());
    let tag = App::Aead::tag(b2.noise.k, n, b2.noise.h, s_secret.public_encoded());
    let s = b2.noise.sealed::<App>(n, s_secret.public_encoded());
    assert(x3.subrange(0, P384_PUBLIC_KEY_SIZE as int) =~= cipher);
    assert(x3.subrange(P384_PUBLIC_KEY_SIZE as int, COMPLETION_IDENTITY_START as int) =~= tag);
    assert(x3.subrange(0, COMPLETION_IDENTITY_START as int) =~= s);
    let n1 = b2.noise.mix_hash::<App>(s).mix_key::<App>(se);
    let m = nonce_spec(PACKET_TYPE_HANDSHAKE_COMPLETION, 0);
    let payload = n1.sealed::<App>(m, identity);
    let cipher2 = App::Aead::sealed(n1.k, m, n1.h, identity);
    let tag2 = App::Aead::tag(n1.k, m, n1.h, identity);
    let len = x3.len() as int;
    let end = len - AES_GCM_TAG_SIZE;
    assert(x3.subrange(COMPLETION_IDENTITY_START as int, end) =~= cipher2);
    assert(x3.subrange(end, len) =~= tag2);
    assert(x3.subrange(COMPLETION_IDENTITY_START as int, len) =~= payload);
}

/// What an initiator writes into a hello, a responder reads from it: the id, the ephemeral key, the
/// Kyber key and the fingerprints; and the state is then the same at both ends.
pub proof fn law_hello_read<App: ApplicationLayer>(
    s_secret: App::KeyPair,
    s_public: App::PublicKey,
    e_secret: App::KeyPair,
    e_public: App::PublicKey,
    kid: u32,
    e1_public: Seq<u8>,
    fingerprints: Seq<u8>,
)
    requires
        opens_what_it_seals::<App::Aead>(),
        agree::<App>(e_secret, e_public, s_secret, s_public),
        kid != 0,
        e1_public.len() == KYBER_PUBLICKEYBYTES,
        fingerprints.len() <= 2 * RATCHET_SIZE,
    ensures
        ({
            let es = e_secret.shared(s_public)->0;
            let (noise, x1) = hello::<App>(
                kid,
                s_secret.public_encoded(),
                e_secret.public_encoded(),
                es,
                e1_public,
                fingerprints,
            );
            hello_read::<App>(s_secret, hello_counter(x1), x1) == Some(
                HelloView::<App> {
                    noise,
                    kid_send: kid,
                    e_remote: e_public,
                    e1: e1_public,
                    fingerprints,
                },
            )
        }),
{
    let es = e_secret.shared(s_public)->0;
    let e_bytes = e_secret.public_encoded();
    let (noise, x1) = hello::<App>(
        kid,
        s_secret.public_encoded(),
        e_bytes,
        es,
        e1_public,
        fingerprints,
    );
    let n0 = hello_start::<App>(u32_be(kid), s_secret.public_encoded(), e_bytes, es);
    let m = nonce_spec(PACKET_TYPE_HANDSHAKE_HELLO, 0);
    let n = nonce_spec(PACKET_TYPE_HANDSHAKE_HELLO, 1);
    let e1 = n0.sealed::<App>(m, e1_public);
    let n1 = n0.mix_hash::<App>(e1);
    let payload = n1.sealed::<App>(n, fingerprints);
    let len = x1.len() as int;
    assert(x1 =~= u32_be(kid) + e_bytes + e1 + payload);
    assert(x1.subrange(0, 4) =~= u32_be(kid));
    assert(x1.subrange(4, HELLO_E_END as int) =~= e_bytes);
    assert(x1.subrange(HELLO_E_END as int, HELLO_E1_END as int) =~= App::Aead::sealed(
        n0.k,
        m,
        n0.h,
        e1_public,
    ));
    assert(x1.subrange(HELLO_E1_END as int, HELLO_PAYLOAD_START as int) =~= App::Aead::tag(
        n0.k,
        m,
        n0.h,
        e1_public,
    ));
    assert(x1.subrange(HELLO_E_END as int, HELLO_PAYLOAD_START as int) =~= e1);
    assert(x1.subrange(HELLO_PAYLOAD_START as int, len - AES_GCM_TAG_SIZE)
        =~= App::Aead::sealed(n1.k, n, n1.h, fingerprints));
    assert(x1.subrange(len - AES_GCM_TAG_SIZE, len) =~= App::Aead::tag(
        n1.k,
        n,
        n1.h,
        fingerprints,
    ));
    assert(x1.subrange(HELLO_PAYLOAD_START as int, len) =~= payload);
    lemma_u32_be_roundtrip(kid);
}

/// What a responder writes into a response, an initiator whose state is the same reads from
/// it: under the ratchet key that the responder used the response yields the id of the
/// responder, and the same state thereafter.
pub proof fn law_response_read<App: ApplicationLayer>(
    zeta: ZetaView<App>,
    kid: u32,
    e_local: App::KeyPair,
    e_local_public: App::PublicKey,
    e_remote: App::KeyPair,
    e_remote_public: App::PublicKey,
    ekem1: Seq<u8>,
    ekem1_secret: Seq<u8>,
    ratchet_key: Seq<u8>,
    kid_remote: u32,
)
    requires
        opens_what_it_seals::<App::Aead>(),
        agree::<App>(e_local, e_local_public, e_remote, e_remote_public),
        zeta.beta matches BetaView::A1 { e_secret, e1_secret, .. } && e_secret == e_local
            && kyber_decapsulated(ekem1, e1_secret) == Some(ekem1_secret),
        zeta.key(true).recv.kid == Some(kid),
        ekem1.len() == KYBER_CIPHERTEXTBYTES,
        kid_remote != 0,
    ensures
        ({
            let (noise, x2) = response::<App>(
                zeta.beta->A1_noise,
                e_remote.public_encoded(),
                e_remote.shared(e_local_public)->0,
                ekem1,
                ekem1_secret,
                ratchet_key,
                kid_remote,
            );
            &&& response_read(zeta, kid, response_counter(x2), x2) matches Some(read)
            &&& read.e_remote == e_remote_public
            &&& kid_opened(read, ratchet_key) == Some((kid_remote, noise))
        }),
{
    let start = zeta.beta->A1_noise;
    let e_public = e_remote.public_encoded();
    let ee = e_remote.shared(e_local_public)->0;
    let (noise, x2) = response::<App>(
        start,
        e_public,
        ee,
        ekem1,
        ekem1_secret,
        ratchet_key,
        kid_remote,
    );
    let n0 = start.mix_e::<App>(e_public).mix_key::<App>(ee);
    let n = nonce_spec(PACKET_TYPE_HANDSHAKE_RESPONSE, 0);
    let ct = n0.sealed::<App>(n, ekem1);
    let n1 = n0.mix_hash::<App>(ct).mix_key::<App>(ekem1_secret);
    let n2 = n1.mix_key_and_hash::<App>(ratchet_key);
    let payload = n2.sealed::<App>(n, u32_be(kid_remote));
    assert(x2 =~= e_public + ct + payload);
    assert(x2.subrange(0, P384_PUBLIC_KEY_SIZE as int) =~= e_public);
    assert(x2.subrange(P384_PUBLIC_KEY_SIZE as int, RESPONSE_EKEM1_END as int)
        =~= App::Aead::sealed(n0.k, n, n0.h, ekem1));
    assert(x2.subrange(RESPONSE_EKEM1_END as int, RESPONSE_PAYLOAD_START as int)
        =~= App::Aead::tag(n0.k, n, n0.h, ekem1));
    assert(x2.subrange(P384_PUBLIC_KEY_SIZE as int, RESPONSE_PAYLOAD_START as int) =~= ct);
    assert(x2.subrange(RESPONSE_PAYLOAD_START as int, RESPONSE_PAYLOAD_END as int)
        =~= App::Aead::sealed(n2.k, n, n2.h, u32_be(kid_remote)));
    assert(x2.subrange(RESPONSE_PAYLOAD_END as int, x2.len() as int) =~= App::Aead::tag(
        n2.k,
        n,
        n2.h,
        u32_be(kid_remote),
    ));
    let read = ResponseView::<App> {
        noise: n1,
        e_remote: e_remote_public,
        payload: x2.subrange(RESPONSE_PAYLOAD_START as int, RESPONSE_PAYLOAD_END as int),
        tag: x2.subrange(RESPONSE_PAYLOAD_END as int, x2.len() as int),
    };
    let last = x2.subrange(x2.len() - 3, x2.len() as int);
    lemma_short_counter(last);
    assert(u64_be(response_counter(x2)).subrange(5, 8) =~= last);
    assert(response_read(zeta, kid, response_counter(x2), x2) == Some(read));
    assert(read.payload + read.tag =~= payload);
    lemma_u32_be_roundtrip(kid_remote);
}

/// Once an initiator has sent its completion and the responder has established the session,
/// the keys that the initiator waits for and the keys of the responder are mirrored, and both
/// ends have the same ratchet key.
pub proof fn law_handshake_keys_mirrored<App: ApplicationLayer>(
    zeta: ZetaView<App>,
    settings: Settings,
    choice: ChoiceView,
    b2: StateB2View<App>,
    responder_settings: Settings,
    completion: CompletionView<App>,
    application_data: App::Data,
    x3: Seq<u8>,
    current_time: i64,
    responder_time: i64,
)
    requires
        zeta.key(true).recv.kid == Some(b2.kid_send),
        choice.chain_len == b2.ratchet_state.chain_len,
    ensures
        ({
            let initiator = a3_session(
                zeta,
                settings,
                completion.noise,
                states_after::<App>(completion.noise, choice),
                b2.kid_recv,
                x3,
                current_time,
            );
            let responder = established(
                b2,
                responder_settings,
                completion,
                application_data,
                responder_time,
            ).0;
            &&& mirrored(initiator.key(true), responder.key(false))
            &&& initiator.ratchet_states.first == responder.ratchet_states.first
        }),
{
}

/// An initiator that the application accepts gets a session, where the storage of the application
/// does not fail and the ratchet state of the handshake is stored for the initiator.
pub proof fn law_accepted_session_made<App: ApplicationLayer>(
    app: App,
    b2: StateB2View<App>,
    kid: u32,
    x3: Seq<u8>,
    current_time: i64,
    app_after: App,
    r: Result<(Zeta<App>, Packet, bool), (ZetaError, Option<Packet>)>,
)
    requires
        completion_handled(app, b2, kid, x3, current_time, app_after, r),
        completion_read(b2, kid, x3) matches Some(completion) && forall|
            answer: (Option<(bool, App::Data)>, bool),
            next: App,
        |
            #[trigger]
            app.may_accept(completion.s_remote, completion.identity, answer, next)
                ==> answer.0 is Some,
        forall|
            any: App,
            key: App::PublicKey,
            data: App::Data,
            restored: Result<RatchetStates, std::io::Error>,
            next: App,
        |
            #[trigger]
            any.may_restore_by_identity(key, data, restored, next) ==> (restored matches Ok(stored)
                && (stored@.first == Some(b2.ratchet_state) || stored@.second == Some(
                b2.ratchet_state,
            ))),
        forall|
            any: App,
            key: App::PublicKey,
            data: App::Data,
            current: RatchetStatesView,
            new: RatchetStatesView,
            saved: Result<(), std::io::Error>,
            next: App,
        |
            #[trigger]
            any.may_save_ratchet_state(key, data, current, new, saved, next) ==> saved is Ok,
    ensures
        r matches Ok((zeta, c1, downgraded)) && !downgraded && zeta@.beta is S1,
{
}

/// Nothing is stored for an initiator that is refused, for its own sake or for that of its ratchet
/// state: the application was asked for its decision and, where it accepted the initiator, for the
/// states that it has stored, and for nothing more. Where the completion is not authentic it was
/// asked for nothing.
pub proof fn law_refused_stores_nothing<App: ApplicationLayer>(
    app: App,
    b2: StateB2View<App>,
    kid: u32,
    x3: Seq<u8>,
    current_time: i64,
    app_after: App,
    r: Result<(Zeta<App>, Packet, bool), (ZetaError, Option<Packet>)>,
)
    requires
        completion_handled(app, b2, kid, x3, current_time, app_after, r),
        r matches Err((e, d)) && (e is FailedAuthentication || e is Rejected),
    ensures
        completion_read(b2, kid, x3) is None ==> app_after == app,
        completion_read(b2, kid, x3) matches Some(completion) ==> exists|
            answer: (Option<(bool, App::Data)>, bool),
            judging: App,
        |
            {
                &&& #[trigger] app.may_accept(
                    completion.s_remote,
                    completion.identity,
                    answer,
                    judging,
                )
                &&& match answer.0 {
                    None => app_after == judging,
                    Some((disallows, data)) => exists|
                        restored: Result<RatchetStates, std::io::Error>,
                    |
                        #[trigger]
                        judging.may_restore_by_identity(
                            completion.s_remote,
                            data,
                            restored,
                            app_after,
                        ),
                }
            },
{
}

/// The key confirmation of a responder is taken by the initiator whose keys are mirrored.
pub proof fn law_confirmation_taken<App: ApplicationLayer>(
    zeta: ZetaView<App>,
    b2: StateB2View<App>,
    settings: Settings,
    completion: CompletionView<App>,
    application_data: App::Data,
    current_time: i64,
)
    requires
        opens_what_it_seals::<App::Aead>(),
        mirrored(
            zeta.key(true),
            established(b2, settings, completion, application_data, current_time).0.key(false),
        ),
    ensures
        ({
            let packet = established(
                b2,
                settings,
                completion,
                application_data,
                current_time,
            ).1;
            zeta.confirmation_checked(packet.kid, packet.nonce, packet.payload) == Ok::<
                bool,
                ZetaError,
            >(true)
        }),
{
    let session = established(b2, settings, completion, application_data, current_time);
    law_control_packet_authentic::<App>(session.0.key(false).send.kek->0, session.1.nonce);
}

/// The refusal of a responder is taken by the initiator that waits for its confirmation, where
/// its keys are the ones that the responder would have taken up.
pub proof fn law_refusal_taken<App: ApplicationLayer>(
    zeta: ZetaView<App>,
    b2: StateB2View<App>,
    settings: Settings,
    completion: CompletionView<App>,
    application_data: App::Data,
    current_time: i64,
)
    requires
        opens_what_it_seals::<App::Aead>(),
        zeta.beta is A3,
        mirrored(
            zeta.key(true),
            established(b2, settings, completion, application_data, current_time).0.key(false),
        ),
    ensures
        ({
            let refusal = rejection(b2, completion);
            zeta.rejection_checked(refusal.kid, refusal.nonce, refusal.payload) == Ok::<
                (),
                ZetaError,
            >(())
        }),
{
    let session = established(b2, settings, completion, application_data, current_time);
    law_control_packet_authentic::<App>(
        session.0.key(false).send.kek->0,
        rejection(b2, completion).nonce,
    );
}

/// Once the keys that one end waits for are confirmed, the current keys of both ends are
/// mirrored.
pub proof fn law_confirmed_keys_mirrored<App: ApplicationLayer>(
    confirming: ZetaView<App>,
    confirmed: ZetaView<App>,
    settings: Settings,
    draw: u64,
    current_time: i64,
)
    requires
        mirrored(confirmed.key(true), confirming.key(false)),
    ensures
        mirrored(
            confirmed.switched().settled(settings, draw, current_time).key(false),
            confirming.key(false),
        ),
{
}

/// The acknowledgement of one end is taken by the other end, where its current keys are
/// mirrored and not yet confirmed.
pub proof fn law_acknowledgement_taken<App: ApplicationLayer>(
    sender: ZetaView<App>,
    receiver: ZetaView<App>,
)
    requires
        opens_what_it_seals::<App::Aead>(),
        receiver.wf(),
        receiver.beta is S1,
        mirrored(sender.key(false), receiver.key(false)),
    ensures
        sender.acknowledgement() matches Some(packet) && receiver.acknowledgement_checked(
            packet.kid,
            packet.nonce,
            packet.payload,
        ) == Ok::<(), ZetaError>(()),
{
    let n = nonce_spec(PACKET_TYPE_ACK, sender.send_counter);
    law_control_packet_authentic::<App>(sender.key(false).send.kek->0, n);
}

/// A key confirmation that comes again changes nothing but the counter: it is acknowledged again,
/// under the next counter, and nothing is stored.
pub proof fn law_confirmation_repeated<App: ApplicationLayer>(
    app: App,
    zeta: ZetaView<App>,
    kid: u32,
    n: Seq<u8>,
    c1: Seq<u8>,
    time1: i64,
    time2: i64,
    once: ZetaView<App>,
    app1: App,
    r1: Result<Packet, ZetaError>,
    twice: ZetaView<App>,
    app2: App,
    r2: Result<Packet, ZetaError>,
)
    requires
        zeta.send_counter + 2 <= u64::MAX,
        zeta.key(true).recv.kid != zeta.key(false).recv.kid,
        zeta.confirmation_handled(app, kid, n, c1, time1, once, app1, r1),
        r1 is Ok,
        once.confirmation_handled(app1, kid, n, c1, time2, twice, app2, r2),
    ensures
        r1 matches Ok(p1) && p1@.nonce == nonce_spec(PACKET_TYPE_ACK, zeta.send_counter),
        r2 matches Ok(p2) && p2@.nonce == nonce_spec(
            PACKET_TYPE_ACK,
            (zeta.send_counter + 1) as u64,
        ),
        app2 == app1,
        twice == (ZetaView { send_counter: (once.send_counter + 1) as u64, ..once }),
{
}

/// An acknowledgement is taken once: when it comes again it is out of sequence.
pub proof fn law_acknowledgement_once<App: ApplicationLayer>(
    zeta: ZetaView<App>,
    settings: Settings,
    draw: u64,
    current_time: i64,
    kid: u32,
    n: Seq<u8>,
    c2: Seq<u8>,
)
    requires
        zeta.acknowledgement_checked(kid, n, c2) == Ok::<(), ZetaError>(()),
    ensures
        zeta.settled(settings, draw, current_time).beta is S2,
        zeta.settled(settings, draw, current_time).acknowledgement_checked(kid, n, c2) == Err::<
            (),
            ZetaError,
        >(ZetaError::OutOfSequence),
{
}

/// What one end writes into a rekeying offer, the other end reads from it, where its current
/// keys are mirrored, its ratchet key is the same, and it makes no offer of its own or gives way:
/// the ephemeral key, the id, and the same state thereafter.
pub proof fn law_rekey_offer_read<App: ApplicationLayer>(
    sender: ZetaView<App>,
    receiver: ZetaView<App>,
    settings: Settings,
    kid_recv: u32,
    s_sender: App::KeyPair,
    s_receiver: App::KeyPair,
    e_secret: App::KeyPair,
    e_public: App::PublicKey,
    current_time: i64,
)
    requires
        opens_what_it_seals::<App::Aead>(),
        sender.wf(),
        sender.beta is S2,
        receiver.wf(),
        receiver.should_rekey_as_bob(),
        mirrored(sender.key(false), receiver.key(false)),
        sender.ratchet_states.first == receiver.ratchet_states.first,
        agree::<App>(s_sender, receiver.s_remote, s_receiver, sender.s_remote),
        agree::<App>(e_secret, e_public, s_receiver, sender.s_remote),
        kid_recv != 0,
    ensures
        ({
            &&& sender.rekey_offered(
                settings,
                kid_recv,
                s_sender,
                e_secret,
                current_time,
            ) matches Some((after, packet))
            &&& receiver.rekey_read(s_receiver, packet.kid, packet.nonce, packet.payload) == Ok::<
                RekeyView<App>,
                ZetaError,
            >(
                RekeyView {
                    noise: after.beta->R1_noise,
                    e_remote: e_public,
                    kid_send: kid_recv,
                },
            )
        }),
{
    let es = e_secret.shared(sender.s_remote)->0;
    let ss = s_sender.shared(sender.s_remote)->0;
    let start = rekey_start::<App>(
        s_sender.public_encoded(),
        sender.s_remote.encoded(),
        (sender.ratchet_states.first->0).key,
        e_secret.public_encoded(),
        es,
        ss,
    );
    let (noise, inner) = rekey_written::<App>(
        start,
        PACKET_TYPE_REKEY_INIT,
        e_secret.public_encoded(),
        kid_recv,
    );
    let n = nonce_spec(PACKET_TYPE_REKEY_INIT, sender.send_counter);
    law_sealed_packet_opens::<App>(sender.key(false).send.kek->0, n, inner);
    let m = nonce_spec(PACKET_TYPE_REKEY_INIT, 0);
    let payload = start.sealed::<App>(m, u32_be(kid_recv));
    assert(inner.subrange(0, P384_PUBLIC_KEY_SIZE as int) =~= e_secret.public_encoded());
    assert(inner.subrange(P384_PUBLIC_KEY_SIZE as int, REKEY_KID_END as int)
        =~= App::Aead::sealed(start.k, m, start.h, u32_be(kid_recv)));
    assert(inner.subrange(REKEY_KID_END as int, REKEY_END as int) =~= App::Aead::tag(
        start.k,
        m,
        start.h,
        u32_be(kid_recv),
    ));
    assert(inner.subrange(P384_PUBLIC_KEY_SIZE as int, REKEY_END as int) =~= payload);
    lemma_u32_be_roundtrip(kid_recv);
}

/// What one end writes into the answer to a rekeying offer, the other end reads from it: the
/// ephemeral key and the id; and the state is then the same at both ends.
pub proof fn law_rekey_answer_read<App: ApplicationLayer>(
    offering: ZetaView<App>,
    answering: ZetaView<App>,
    offer: RekeyView<App>,
    kid_recv: u32,
    s_answering: App::KeyPair,
    e_offering: App::KeyPair,
    e_answering: App::KeyPair,
    e_answering_public: App::PublicKey,
)
    requires
        opens_what_it_seals::<App::Aead>(),
        answering.key(false).send.kek is Some,
        answering.key(false).send.kid is Some,
        mirrored(offering.key(false), answering.key(false)),
        offering.beta matches BetaView::R1 { noise, e_secret, .. } && noise == offer.noise
            && e_secret == e_offering,
        agree::<App>(e_offering, offer.e_remote, e_answering, e_answering_public),
        agree::<App>(e_offering, offer.e_remote, s_answering, offering.s_remote),
        kid_recv != 0,
    ensures
        ({
            &&& rekey_answered(
                offer,
                kid_recv,
                s_answering,
                e_answering,
            ) matches Some((noise, inner))
            &&& {
                let packet = answering.rekey_answer_packet(inner);
                offering.rekey_answer_read(packet.kid, packet.nonce, packet.payload) == Ok::<
                    RekeyView<App>,
                    ZetaError,
                >(RekeyView { noise, e_remote: e_answering_public, kid_send: kid_recv })
            }
        }),
{
    let ee = e_answering.shared(offer.e_remote)->0;
    let se = s_answering.shared(offer.e_remote)->0;
    let before = offer.noise.mix_e::<App>(e_answering.public_encoded()).mix_key::<App>(
        ee,
    ).mix_key::<App>(se);
    let (noise, inner) = rekey_written::<App>(
        before,
        PACKET_TYPE_REKEY_COMPLETE,
        e_answering.public_encoded(),
        kid_recv,
    );
    let packet = answering.rekey_answer_packet(inner);
    law_sealed_packet_opens::<App>(answering.key(false).send.kek->0, packet.nonce, inner);
    let n = nonce_spec(PACKET_TYPE_REKEY_COMPLETE, 0);
    let payload = before.sealed::<App>(n, u32_be(kid_recv));
    assert(inner.subrange(0, P384_PUBLIC_KEY_SIZE as int) =~= e_answering.public_encoded());
    assert(inner.subrange(P384_PUBLIC_KEY_SIZE as int, REKEY_KID_END as int)
        =~= App::Aead::sealed(before.k, n, before.h, u32_be(kid_recv)));
    assert(inner.subrange(REKEY_KID_END as int, REKEY_END as int) =~= App::Aead::tag(
        before.k,
        n,
        before.h,
        u32_be(kid_recv),
    ));
    assert(inner.subrange(P384_PUBLIC_KEY_SIZE as int, REKEY_END as int) =~= payload);
    lemma_u32_be_roundtrip(kid_recv);
}

/// Where the two ends of a rekeying come to the same state, the keys that they take up are
/// mirrored, and so are their ratchet keys.
pub proof fn law_rekey_keys_mirrored<App: ApplicationLayer>(
    offering: ZetaView<App>,
    answering: ZetaView<App>,
    settings: Settings,
    noise: Noise,
    kid_offering: u32,
    kid_answering: u32,
    k2: Seq<u8>,
    offering_time: i64,
    answering_time: i64,
)
    requires
        offering.key(true).recv.kid == Some(kid_offering),
        offering.ratchet_states.first == answering.ratchet_states.first,
    ensures
        ({
            let a = offering.s1_session(settings, noise, kid_answering, offering_time);
            let b = answering.r2_session(
                settings,
                noise,
                kid_offering,
                kid_answering,
                k2,
                answering_time,
            );
            &&& mirrored(a.key(false), b.key(true))
            &&& a.ratchet_states.first == b.ratchet_states.first
        }),
{
}

/// An initiator that never allows a downgrade never completes a handshake on a ratchet key
/// that it does not remember.
pub proof fn law_no_downgrade_unless_allowed<App: ApplicationLayer>(
    app: App,
    zeta: ZetaView<App>,
    kid: u32,
    c: u64,
    x2: Seq<u8>,
    s_secret: App::KeyPair,
    identity: Seq<u8>,
    current_time: i64,
    after: ZetaView<App>,
    app_after: App,
    r: Result<(Packet, bool), ZetaError>,
)
    requires
        response_handled(
            app,
            zeta,
            kid,
            c,
            x2,
            s_secret,
            identity,
            current_time,
            after,
            app_after,
            r,
        ),
        forall|answer: bool, next: App| #[trigger]
            app.may_disallow_downgrade(answer, next) ==> answer,
    ensures
        r matches Ok((p, downgraded)) ==> !downgraded,
{
}

/// A responder that disallows a downgrade accepts only a ratchet state that is stored for the
/// initiator.
pub proof fn law_responder_downgrade(
    used: RatchetView,
    stored: RatchetStatesView,
)
    ensures
        ratchet_judged(used, stored, true) is Some ==> stored.first == Some(used)
            || stored.second == Some(used),
        ratchet_judged(used, stored, true) != Some(true),
{
}

} // verus!
