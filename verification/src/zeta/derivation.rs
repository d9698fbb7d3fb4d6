//! What the keys of an exchange depend on, and which of them differ.
//!
//! The laws speak of a keyed hash that keeps apart what goes into it: two keys of the same size, or
//! two secrets of the same size, do not lead to the same block of key material, and neither do two
//! numbers or two labels.

use vstd::prelude::*;

use crate::application::{ApplicationLayer, RatchetStatesView, Settings};
use crate::crypto::{AesGcmAead, HashSha512};
use crate::proto::{
    u32_be, HASH_SIZE, INITIAL_H, INITIAL_H_REKEY, LABEL_HEADER_KEY, LABEL_KBKDF_CHAIN,
    LABEL_KEX_KEY, LABEL_RATCHET_STATE, PACKET_TYPE_HANDSHAKE_COMPLETION,
    PACKET_TYPE_HANDSHAKE_HELLO, PACKET_TYPE_HANDSHAKE_RESPONSE,
};
use crate::result::{OpenError, ZetaError};
use crate::symmetric_state::{kdf_block, kdf_key, Noise};
use crate::zeta::completion::{completion_handled, established, CompletionView};
use crate::zeta::hello::{
    hello, hello_handled, hello_start, response, session_opened, StateB2, StateB2View,
};
use crate::zeta::laws::law_nonce_injective;
use crate::zeta::opening::law_hello_answered;
use crate::zeta::rekey::rekey_start;
use crate::zeta::response::{a3_session, completion, response_handled};
use crate::zeta::sealed::{control_authentic, control_tag, packet_opened, packet_sealed};
use crate::zeta::{nonce_spec, DualKeysView, Packet, Zeta, ZetaView};

verus! {

/// Of two secrets of the same size, no larger than a block, in the same place of a message, and of
/// two keys of the size of a block, each leads to another block of key material.
pub open spec fn keeps_secrets_apart<App: ApplicationLayer>() -> bool {
    &&& forall|key: Seq<u8>, data: Seq<u8>| (#[trigger] App::Hash::mac(key, data)).len()
        == HASH_SIZE
    &&& forall|key: Seq<u8>, before: Seq<u8>, a: Seq<u8>, b: Seq<u8>, behind: Seq<u8>|
        a.len() == b.len() <= HASH_SIZE && #[trigger] App::Hash::mac(key, before + a + behind)
            == #[trigger] App::Hash::mac(key, before + b + behind) ==> a == b
    &&& forall|key1: Seq<u8>, key2: Seq<u8>, data: Seq<u8>|
        key1.len() == key2.len() == HASH_SIZE && #[trigger] App::Hash::mac(key1, data)
            == #[trigger] App::Hash::mac(key2, data) ==> key1 == key2
}

/// Keys that go by different numbers, or by different labels of the same size, are different.
pub open spec fn keeps_purposes_apart<App: ApplicationLayer>() -> bool {
    &&& forall|key: Seq<u8>, data: Seq<u8>|
        (#[trigger] App::Hash::mac(key, seq![1u8] + data)).subrange(0, 32) != App::Hash::mac(
            key,
            seq![2u8] + data,
        ).subrange(0, 32)
    &&& forall|
        key: Seq<u8>,
        i: u8,
        j: u8,
        label1: Seq<u8>,
        label2: Seq<u8>,
        data: Seq<u8>,
    |
        label1.len() == label2.len() && label1 != label2 ==> (#[trigger] App::Hash::mac(
            key,
            seq![i] + label1 + data,
        )).subrange(0, 32) != (#[trigger] App::Hash::mac(key, seq![j] + label2 + data)).subrange(
            0,
            32,
        )
}

/// Two different numbers, or two different labels, lead to different keys.
proof fn lemma_purposes<App: ApplicationLayer>(
    ck: Seq<u8>,
    label: Seq<u8>,
    other: Seq<u8>,
    context: Seq<u8>,
)
    requires
        keeps_purposes_apart::<App>(),
    ensures
        kdf_key::<App>(ck, 1, label, context, 2) != kdf_key::<App>(ck, 2, label, context, 2),
        label.len() == other.len() && label != other ==> forall|i: u8, j: u8|
            #[trigger] kdf_key::<App>(ck, i, label, context, 2) != #[trigger] kdf_key::<App>(
                ck,
                j,
                other,
                context,
                2,
            ),
{
    let rest = seq![0u8] + context + seq![4u8, 0u8];
    assert forall|i: u8, any: Seq<u8>| #[trigger] kdf_key::<App>(ck, i, any, context, 2)
        == App::Hash::mac(ck, seq![i] + any + rest).subrange(0, 32) by {
        assert(seq![i] + any + seq![0u8] + context + seq![4u8, 0u8] =~= seq![i] + any + rest);
    }
    assert(seq![1u8] + label + rest =~= seq![1u8] + (label + rest));
    assert(seq![2u8] + label + rest =~= seq![2u8] + (label + rest));
    assert(kdf_key::<App>(ck, 1, label, context, 2) == App::Hash::mac(
        ck,
        seq![1u8] + (label + rest),
    ).subrange(0, 32));
    assert(kdf_key::<App>(ck, 2, label, context, 2) == App::Hash::mac(
        ck,
        seq![2u8] + (label + rest),
    ).subrange(0, 32));
}

/// The keys that a state yields are different.
proof fn lemma_keys_differ<App: ApplicationLayer>(noise: Noise)
    requires
        keeps_purposes_apart::<App>(),
    ensures
        ({
            let kek = noise.ask::<App>(LABEL_KEX_KEY@);
            let rk = noise.ask::<App>(LABEL_RATCHET_STATE@);
            let hk = noise.ask::<App>(LABEL_HEADER_KEY@);
            let nk = noise.split::<App>();
            &&& kek.0 != kek.1 && rk.0 != rk.1 && hk.0 != hk.1 && nk.0 != nk.1
            &&& kek.0 != rk.0 && kek.0 != rk.1 && kek.1 != rk.0 && kek.1 != rk.1
        }),
{
    law_labels_differ();
    lemma_purposes::<App>(noise.ck, LABEL_KEX_KEY@, LABEL_RATCHET_STATE@, noise.h);
    lemma_purposes::<App>(noise.ck, LABEL_RATCHET_STATE@, LABEL_KEX_KEY@, noise.h);
    lemma_purposes::<App>(noise.ck, LABEL_HEADER_KEY@, LABEL_KEX_KEY@, noise.h);
    lemma_purposes::<App>(noise.ck, LABEL_KBKDF_CHAIN@, LABEL_KEX_KEY@, seq![]);
}

/// The two directions of a session have different keys.
pub open spec fn directions_differ(keys: DualKeysView) -> bool {
    keys.send.kek != keys.recv.kek && keys.send.nk != keys.recv.nk
}

/// The state in which another secret was mixed in has another chaining key.
proof fn lemma_other_material<App: ApplicationLayer>(noise: Noise, a: Seq<u8>, b: Seq<u8>)
    requires
        keeps_secrets_apart::<App>(),
        a.len() == b.len() <= HASH_SIZE,
        a != b,
    ensures
        noise.mix_key::<App>(a).ck != noise.mix_key::<App>(b).ck,
        noise.mix_key_and_hash::<App>(a).ck != noise.mix_key_and_hash::<App>(b).ck,
        noise.mix_key::<App>(a).ck.len() == HASH_SIZE,
        noise.mix_key::<App>(b).ck.len() == HASH_SIZE,
        noise.mix_key_and_hash::<App>(a).ck.len() == HASH_SIZE,
        noise.mix_key_and_hash::<App>(b).ck.len() == HASH_SIZE,
{
    let before = seq![1u8] + LABEL_KBKDF_CHAIN@ + seq![0u8];
    assert(App::Hash::mac(noise.ck, before + a + seq![4u8, 0u8]) != App::Hash::mac(
        noise.ck,
        before + b + seq![4u8, 0u8],
    ));
    assert(App::Hash::mac(noise.ck, before + a + seq![6u8, 0u8]) != App::Hash::mac(
        noise.ck,
        before + b + seq![6u8, 0u8],
    ));
}

/// States with different chaining keys have different ones after the same secret was mixed in.
proof fn lemma_other_chain<App: ApplicationLayer>(n1: Noise, n2: Noise, material: Seq<u8>)
    requires
        keeps_secrets_apart::<App>(),
        n1.ck.len() == n2.ck.len() == HASH_SIZE,
        n1.ck != n2.ck,
    ensures
        n1.mix_key::<App>(material).ck != n2.mix_key::<App>(material).ck,
        n1.mix_key_and_hash::<App>(material).ck != n2.mix_key_and_hash::<App>(material).ck,
        n1.mix_key::<App>(material).ck.len() == HASH_SIZE,
        n2.mix_key::<App>(material).ck.len() == HASH_SIZE,
        n1.mix_key_and_hash::<App>(material).ck.len() == HASH_SIZE,
        n2.mix_key_and_hash::<App>(material).ck.len() == HASH_SIZE,
{
}

/// The chaining key of a hello, from which every key of the handshake comes, depends on the secret
/// of the ephemeral key and the static key of the responder.
pub proof fn law_hello_secret_counts<App: ApplicationLayer>(
    kid: Seq<u8>,
    s_public: Seq<u8>,
    e_public: Seq<u8>,
    es1: Seq<u8>,
    es2: Seq<u8>,
)
    requires
        keeps_secrets_apart::<App>(),
        es1.len() == es2.len() <= HASH_SIZE,
        es1 != es2,
    ensures
        hello_start::<App>(kid, s_public, e_public, es1).ck != hello_start::<App>(
            kid,
            s_public,
            e_public,
            es2,
        ).ck,
{
    lemma_other_material::<App>(
        Noise::initial(INITIAL_H@).mix_hash::<App>(kid).mix_hash::<App>(
            s_public,
        ).mix_e::<App>(e_public),
        es1,
        es2,
    );
}

/// The chaining key of a response depends on each secret that goes into it: that of the two
/// ephemeral keys, the Kyber secret, and the ratchet key.
pub proof fn law_response_secrets_count<App: ApplicationLayer>(
    noise: Noise,
    e_public: Seq<u8>,
    ee: Seq<u8>,
    ekem1: Seq<u8>,
    ekem1_secret: Seq<u8>,
    ratchet_key: Seq<u8>,
    kid: u32,
    other: Seq<u8>,
)
    requires
        keeps_secrets_apart::<App>(),
        other.len() <= HASH_SIZE,
    ensures
        ({
            let ck = response::<App>(
                noise,
                e_public,
                ee,
                ekem1,
                ekem1_secret,
                ratchet_key,
                kid,
            ).0.ck;
            &&& ee.len() == other.len() && ee != other ==> ck != response::<App>(
                noise,
                e_public,
                other,
                ekem1,
                ekem1_secret,
                ratchet_key,
                kid,
            ).0.ck
            &&& ekem1_secret.len() == other.len() && ekem1_secret != other ==> ck
                != response::<App>(
                noise,
                e_public,
                ee,
                ekem1,
                other,
                ratchet_key,
                kid,
            ).0.ck
            &&& ratchet_key.len() == other.len() && ratchet_key != other ==> ck != response::<App>(
                noise,
                e_public,
                ee,
                ekem1,
                ekem1_secret,
                other,
                kid,
            ).0.ck
        }),
{
    let start = noise.mix_e::<App>(e_public);
    let n = nonce_spec(PACKET_TYPE_HANDSHAKE_RESPONSE, 0);
    let n0 = start.mix_key::<App>(ee);
    let n1 = n0.mix_hash::<App>(n0.sealed::<App>(n, ekem1));
    let n2 = n1.mix_key::<App>(ekem1_secret);
    if ee.len() == other.len() && ee != other {
        lemma_other_material::<App>(start, ee, other);
        let o0 = start.mix_key::<App>(other);
        let o1 = o0.mix_hash::<App>(o0.sealed::<App>(n, ekem1));
        lemma_other_chain::<App>(n1, o1, ekem1_secret);
        lemma_other_chain::<App>(n2, o1.mix_key::<App>(ekem1_secret), ratchet_key);
    }
    if ekem1_secret.len() == other.len() && ekem1_secret != other {
        lemma_other_material::<App>(n1, ekem1_secret, other);
        lemma_other_chain::<App>(n2, n1.mix_key::<App>(other), ratchet_key);
    }
    if ratchet_key.len() == other.len() && ratchet_key != other {
        lemma_other_material::<App>(n2, ratchet_key, other);
    }
}

/// The chaining key of a completion depends on the secret of the static key of the initiator and
/// the ephemeral key of the responder.
pub proof fn law_completion_secret_counts<App: ApplicationLayer>(
    noise: Noise,
    s_public: Seq<u8>,
    se1: Seq<u8>,
    se2: Seq<u8>,
    identity: Seq<u8>,
)
    requires
        keeps_secrets_apart::<App>(),
        se1.len() == se2.len() <= HASH_SIZE,
        se1 != se2,
    ensures
        completion::<App>(noise, s_public, se1, identity).0.ck != completion::<App>(
            noise,
            s_public,
            se2,
            identity,
        ).0.ck,
{
    let s = noise.sealed::<App>(
        nonce_spec(PACKET_TYPE_HANDSHAKE_COMPLETION, 1),
        s_public,
    );
    lemma_other_material::<App>(noise.mix_hash::<App>(s), se1, se2);
}

/// The chaining key of a rekeying depends on each secret that goes into its offer: the ratchet key,
/// that of the new ephemeral key and the static key of the other end, and that of the two static
/// keys. So a rekeying builds on the key exchange before it.
pub proof fn law_rekeying_secrets_count<App: ApplicationLayer>(
    s_offering: Seq<u8>,
    s_answering: Seq<u8>,
    ratchet_key: Seq<u8>,
    e_public: Seq<u8>,
    es: Seq<u8>,
    ss: Seq<u8>,
    other: Seq<u8>,
)
    requires
        keeps_secrets_apart::<App>(),
        other.len() <= HASH_SIZE,
    ensures
        ({
            let ck = rekey_start::<App>(
                s_offering,
                s_answering,
                ratchet_key,
                e_public,
                es,
                ss,
            ).ck;
            &&& ratchet_key.len() == other.len() && ratchet_key != other ==> ck
                != rekey_start::<App>(s_offering, s_answering, other, e_public, es, ss).ck
            &&& es.len() == other.len() && es != other ==> ck != rekey_start::<App>(
                s_offering,
                s_answering,
                ratchet_key,
                e_public,
                other,
                ss,
            ).ck
            &&& ss.len() == other.len() && ss != other ==> ck != rekey_start::<App>(
                s_offering,
                s_answering,
                ratchet_key,
                e_public,
                es,
                other,
            ).ck
        }),
{
    let start = Noise::initial(INITIAL_H_REKEY@).mix_hash::<App>(
        s_offering,
    ).mix_hash::<App>(s_answering);
    let n0 = start.mix_key_and_hash::<App>(ratchet_key);
    let n1 = n0.mix_e::<App>(e_public);
    let n2 = n1.mix_key::<App>(es);
    if ratchet_key.len() == other.len() && ratchet_key != other {
        let o0 = start.mix_key_and_hash::<App>(other);
        lemma_other_material::<App>(start, ratchet_key, other);
        lemma_other_chain::<App>(
            n0.mix_hash::<App>(e_public),
            o0.mix_hash::<App>(e_public),
            e_public,
        );
        lemma_other_chain::<App>(n1, o0.mix_e::<App>(e_public), es);
        lemma_other_chain::<App>(n2, o0.mix_e::<App>(e_public).mix_key::<App>(es), ss);
    }
    if es.len() == other.len() && es != other {
        lemma_other_material::<App>(n1, es, other);
        lemma_other_chain::<App>(n2, n1.mix_key::<App>(other), ss);
    }
    if ss.len() == other.len() && ss != other {
        lemma_other_material::<App>(n2, ss, other);
    }
}

/// The two directions of a session never have the same key for headers: neither at the end that
/// opens it, nor at the end that answers its hello.
pub proof fn law_header_keys_differ<App: ApplicationLayer>(
    app: App,
    kid_recv: u32,
    s_remote: App::PublicKey,
    application_data: App::Data,
    current_time: i64,
    app_after: App,
    opened: Result<(Zeta<App>, Packet), OpenError>,
    s_secret: App::KeyPair,
    c: u64,
    x1: Seq<u8>,
    answered: Result<(StateB2<App>, Packet), ZetaError>,
)
    requires
        keeps_purposes_apart::<App>(),
        session_opened(
            app,
            kid_recv,
            s_remote,
            application_data,
            current_time,
            app_after,
            opened,
        ) || hello_handled(app, kid_recv, s_secret, c, x1, app_after, answered),
    ensures
        session_opened(
            app,
            kid_recv,
            s_remote,
            application_data,
            current_time,
            app_after,
            opened,
        ) ==> (opened matches Ok((z, p)) ==> z@.hk_send != z@.hk_recv),
        hello_handled(app, kid_recv, s_secret, c, x1, app_after, answered) ==> (answered matches Ok(
            (b2, p),
        ) ==> b2@.hk_send != b2@.hk_recv),
{
    assert forall|noise: Noise|
        (#[trigger] noise.ask::<App>(LABEL_HEADER_KEY@)).0 != noise.ask::<App>(
            LABEL_HEADER_KEY@,
        ).1 by {
        lemma_keys_differ::<App>(noise);
    }
    if hello_handled(app, kid_recv, s_secret, c, x1, app_after, answered) && answered is Ok {
        law_hello_answered(app, kid_recv, s_secret, c, x1, app_after, answered);
    }
}

/// The keys that a handshake ends with differ between the two directions, and the new ratchet state
/// is neither its own fingerprint nor one of them.
pub proof fn law_handshake_keys_differ<App: ApplicationLayer>(
    app: App,
    zeta: ZetaView<App>,
    kid: u32,
    c: u64,
    packet: Seq<u8>,
    s_secret: App::KeyPair,
    identity: Seq<u8>,
    current_time: i64,
    after: ZetaView<App>,
    app_after: App,
    completed: Result<(Packet, bool), ZetaError>,
)
    requires
        keeps_purposes_apart::<App>(),
        response_handled(
            app,
            zeta,
            kid,
            c,
            packet,
            s_secret,
            identity,
            current_time,
            after,
            app_after,
            completed,
        ),
        completed is Ok,
    ensures
        directions_differ(after.key(true)),
        after.ratchet_states.first matches Some(new) && new.fingerprint != Some(new.key)
            && after.key(true).send.kek != Some(new.key) && after.key(true).recv.kek != Some(
            new.key,
        ),
{
    assert forall|noise: Noise|
        ({
            let kek = #[trigger] noise.ask::<App>(LABEL_KEX_KEY@);
            let rk = noise.ask::<App>(LABEL_RATCHET_STATE@);
            let nk = noise.split::<App>();
            &&& kek.0 != kek.1 && rk.0 != rk.1 && nk.0 != nk.1
            &&& kek.0 != rk.0 && kek.0 != rk.1 && kek.1 != rk.0 && kek.1 != rk.1
        }) by {
        lemma_keys_differ::<App>(noise);
    }
}

/// The keys that a rekeying ends with differ between the two directions, and the new ratchet state
/// is neither its own fingerprint nor one of them; so at the end that made the offer, and at the
/// end that answered it.
pub proof fn law_rekeying_keys_differ<App: ApplicationLayer>(
    app: App,
    zeta: ZetaView<App>,
    kid_recv: u32,
    s_secret: App::KeyPair,
    kid: u32,
    n: Seq<u8>,
    packet: Seq<u8>,
    current_time: i64,
    after: ZetaView<App>,
    app_after: App,
    r: Result<Packet, ZetaError>,
    is_next: bool,
)
    requires
        keeps_purposes_apart::<App>(),
        if is_next {
            zeta.rekey_handled(
                app,
                kid_recv,
                s_secret,
                kid,
                n,
                packet,
                current_time,
                after,
                app_after,
                r,
            )
        } else {
            zeta.rekey_completed(app, kid, n, packet, current_time, after, app_after, r)
        },
        r is Ok,
    ensures
        directions_differ(after.key(is_next)),
        after.ratchet_states.first matches Some(new) && new.fingerprint != Some(new.key)
            && after.key(is_next).send.kek != Some(new.key) && after.key(is_next).recv.kek
            != Some(new.key),
{
    assert forall|noise: Noise|
        ({
            let kek = #[trigger] noise.ask::<App>(LABEL_KEX_KEY@);
            let rk = noise.ask::<App>(LABEL_RATCHET_STATE@);
            let nk = noise.split::<App>();
            &&& kek.0 != kek.1 && rk.0 != rk.1 && nk.0 != nk.1
            &&& kek.0 != rk.0 && kek.0 != rk.1 && kek.1 != rk.0 && kek.1 != rk.1
        }) by {
        lemma_keys_differ::<App>(noise);
    }
}

/// The keys that a responder makes a session with differ between the two directions, and the new
/// ratchet state is neither its own fingerprint nor one of them.
pub proof fn law_session_keys_differ<App: ApplicationLayer>(
    app: App,
    b2: StateB2View<App>,
    kid: u32,
    x3: Seq<u8>,
    current_time: i64,
    app_after: App,
    r: Result<(Zeta<App>, Packet, bool), (ZetaError, Option<Packet>)>,
)
    requires
        keeps_purposes_apart::<App>(),
        completion_handled(app, b2, kid, x3, current_time, app_after, r),
        r is Ok,
    ensures
        r matches Ok((z, c1, downgraded)) && directions_differ(z@.key(false)) && (
        z@.ratchet_states.first matches Some(new) && new.fingerprint != Some(new.key) && z@.key(
            false,
        ).send.kek != Some(new.key) && z@.key(false).recv.kek != Some(new.key)),
{
    assert forall|noise: Noise|
        ({
            let kek = #[trigger] noise.ask::<App>(LABEL_KEX_KEY@);
            let rk = noise.ask::<App>(LABEL_RATCHET_STATE@);
            let nk = noise.split::<App>();
            &&& kek.0 != kek.1 && rk.0 != rk.1 && nk.0 != nk.1
            &&& kek.0 != rk.0 && kek.0 != rk.1 && kek.1 != rk.0 && kek.1 != rk.1
        }) by {
        lemma_keys_differ::<App>(noise);
    }
}

/// The labels that keys are made under differ, so that keys for different purposes do.
pub proof fn law_labels_differ()
    ensures
        LABEL_KEX_KEY@ != LABEL_RATCHET_STATE@,
        LABEL_KEX_KEY@ != LABEL_HEADER_KEY@,
        LABEL_KEX_KEY@ != LABEL_KBKDF_CHAIN@,
        LABEL_RATCHET_STATE@ != LABEL_HEADER_KEY@,
        LABEL_RATCHET_STATE@ != LABEL_KBKDF_CHAIN@,
        LABEL_HEADER_KEY@ != LABEL_KBKDF_CHAIN@,
{
    assert(LABEL_KEX_KEY@[3] != LABEL_RATCHET_STATE@[3]);
    assert(LABEL_KEX_KEY@[3] != LABEL_HEADER_KEY@[3]);
    assert(LABEL_KEX_KEY@[3] != LABEL_KBKDF_CHAIN@[3]);
    assert(LABEL_RATCHET_STATE@[3] != LABEL_HEADER_KEY@[3]);
    assert(LABEL_RATCHET_STATE@[3] != LABEL_KBKDF_CHAIN@[3]);
    assert(LABEL_HEADER_KEY@[3] != LABEL_KBKDF_CHAIN@[3]);
}

/// Two states with different chaining keys yield different keys for every purpose, where the keyed
/// hash tells the two chaining keys apart.
pub proof fn law_keys_from_chain<App: ApplicationLayer>(n1: Noise, n2: Noise, label: Seq<u8>)
    requires
        n1.h == n2.h,
        forall|data: Seq<u8>|
            (#[trigger] App::Hash::mac(n1.ck, data)).subrange(0, 32) != App::Hash::mac(
                n2.ck,
                data,
            ).subrange(0, 32),
    ensures
        n1.ask::<App>(label).0 != n2.ask::<App>(label).0,
        n1.ask::<App>(label).1 != n2.ask::<App>(label).1,
        n1.split::<App>().0 != n2.split::<App>().0,
        n1.split::<App>().1 != n2.split::<App>().1,
{
}

/// Two states with different transcripts yield different keys for every purpose that the transcript
/// goes into, where the keyed hash tells the two transcripts apart.
pub proof fn law_keys_from_transcript<App: ApplicationLayer>(n1: Noise, n2: Noise, label: Seq<u8>)
    requires
        n1.ck == n2.ck,
        forall|before: Seq<u8>, behind: Seq<u8>|
            (#[trigger] App::Hash::mac(n1.ck, before + n1.h + behind)).subrange(0, 32)
                != App::Hash::mac(n1.ck, before + n2.h + behind).subrange(0, 32),
    ensures
        n1.ask::<App>(label).0 != n2.ask::<App>(label).0,
        n1.ask::<App>(label).1 != n2.ask::<App>(label).1,
{
    let before1 = seq![1u8] + label + seq![0u8];
    let before2 = seq![2u8] + label + seq![0u8];
    assert(App::Hash::mac(n1.ck, before1 + n1.h + seq![4u8, 0u8]).subrange(0, 32)
        != App::Hash::mac(n1.ck, before1 + n2.h + seq![4u8, 0u8]).subrange(0, 32));
    assert(App::Hash::mac(n1.ck, before2 + n1.h + seq![4u8, 0u8]).subrange(0, 32)
        != App::Hash::mac(n1.ck, before2 + n2.h + seq![4u8, 0u8]).subrange(0, 32));
}

/// Of two transcripts of the size of a hash, and of two pieces of the same size, no larger than a
/// hash, each leads to another transcript.
pub open spec fn keeps_transcripts_apart<App: ApplicationLayer>() -> bool {
    &&& forall|data: Seq<u8>| (#[trigger] App::Hash::digest(data)).len() == HASH_SIZE
    &&& forall|h: Seq<u8>, a: Seq<u8>, b: Seq<u8>|
        h.len() == HASH_SIZE && a.len() == b.len() <= HASH_SIZE && #[trigger] App::Hash::digest(
            h + a,
        ) == #[trigger] App::Hash::digest(h + b) ==> a == b
    &&& forall|h1: Seq<u8>, h2: Seq<u8>, data: Seq<u8>|
        h1.len() == h2.len() == HASH_SIZE && #[trigger] App::Hash::digest(h1 + data)
            == #[trigger] App::Hash::digest(h2 + data) ==> h1 == h2
}

/// The transcript of a hello depends on the id of the initiator, on the static key of the
/// responder, and on the ephemeral key.
pub proof fn law_hello_transcript<App: ApplicationLayer>(
    kid: Seq<u8>,
    s_public: Seq<u8>,
    e_public: Seq<u8>,
    es: Seq<u8>,
    other: Seq<u8>,
)
    requires
        keeps_transcripts_apart::<App>(),
        other.len() <= HASH_SIZE,
    ensures
        ({
            let h = hello_start::<App>(kid, s_public, e_public, es).h;
            &&& kid.len() == other.len() && kid != other ==> h != hello_start::<App>(
                other,
                s_public,
                e_public,
                es,
            ).h
            &&& s_public.len() == other.len() && s_public != other ==> h != hello_start::<App>(
                kid,
                other,
                e_public,
                es,
            ).h
            &&& e_public.len() == other.len() && e_public != other ==> h != hello_start::<App>(
                kid,
                s_public,
                other,
                es,
            ).h
        }),
{
    let start = Noise::initial(INITIAL_H@);
    assert(start.h.len() == HASH_SIZE);
    let n1 = start.mix_hash::<App>(kid);
    let n2 = n1.mix_hash::<App>(s_public);
    let o1 = start.mix_hash::<App>(other);
    let o2 = n1.mix_hash::<App>(other);
    if kid.len() == other.len() && kid != other {
        assert(n1.h != o1.h);
        assert(n2.h != o1.mix_hash::<App>(s_public).h);
        assert(App::Hash::digest(n2.h + e_public) != App::Hash::digest(
            o1.mix_hash::<App>(s_public).h + e_public,
        ));
    }
    if s_public.len() == other.len() && s_public != other {
        assert(n2.h != o2.h);
        assert(App::Hash::digest(n2.h + e_public) != App::Hash::digest(o2.h + e_public));
    }
    if e_public.len() == other.len() && e_public != other {
        assert(App::Hash::digest(n2.h + e_public) != App::Hash::digest(n2.h + other));
    }
}

/// The transcript of a rekeying depends on the static keys of both ends, in their parts.
pub proof fn law_rekeying_transcript<App: ApplicationLayer>(
    s_offering: Seq<u8>,
    s_answering: Seq<u8>,
    ratchet_key: Seq<u8>,
    e_public: Seq<u8>,
    es: Seq<u8>,
    ss: Seq<u8>,
    other: Seq<u8>,
)
    requires
        keeps_transcripts_apart::<App>(),
        other.len() <= HASH_SIZE,
    ensures
        ({
            let h = rekey_start::<App>(
                s_offering,
                s_answering,
                ratchet_key,
                e_public,
                es,
                ss,
            ).h;
            &&& s_offering.len() == other.len() && s_offering != other ==> h != rekey_start::<App>(
                other,
                s_answering,
                ratchet_key,
                e_public,
                es,
                ss,
            ).h
            &&& s_answering.len() == other.len() && s_answering != other ==> h
                != rekey_start::<App>(
                s_offering,
                other,
                ratchet_key,
                e_public,
                es,
                ss,
            ).h
        }),
{
    let start = Noise::initial(INITIAL_H_REKEY@);
    assert(start.h.len() == HASH_SIZE);
    let n1 = start.mix_hash::<App>(s_offering);
    let n2 = n1.mix_hash::<App>(s_answering);
    let block = kdf_block::<App>(start.ck, 2, LABEL_KBKDF_CHAIN@, ratchet_key, 3);
    let n3 = n2.mix_key_and_hash::<App>(ratchet_key);
    if s_offering.len() == other.len() && s_offering != other {
        let o1 = start.mix_hash::<App>(other);
        let o2 = o1.mix_hash::<App>(s_answering);
        assert(n1.h != o1.h);
        assert(n2.h != o2.h);
        assert(App::Hash::digest(n2.h + block) != App::Hash::digest(o2.h + block));
        let o3 = o2.mix_key_and_hash::<App>(ratchet_key);
        assert(n3.h != o3.h);
        assert(App::Hash::digest(n3.h + e_public) != App::Hash::digest(o3.h + e_public));
    }
    if s_answering.len() == other.len() && s_answering != other {
        let o2 = n1.mix_hash::<App>(other);
        assert(n2.h != o2.h);
        assert(App::Hash::digest(n2.h + block) != App::Hash::digest(o2.h + block));
        let o3 = o2.mix_key_and_hash::<App>(ratchet_key);
        assert(n3.h != o3.h);
        assert(App::Hash::digest(n3.h + e_public) != App::Hash::digest(o3.h + e_public));
    }
}

/// The keys of a session are those that the state of its last exchange yields: the keys for data
/// are the two that the exchange ends with, the keys for control packets and the ratchet state are
/// those for their purposes. What one end sends with is what the other end receives with: so for
/// the end that completes a handshake or has its offer answered, and for the end that makes a
/// session of a completion or answers an offer.
pub proof fn law_keys_derived<App: ApplicationLayer>(
    zeta: ZetaView<App>,
    settings: Settings,
    noise: Noise,
    b2: StateB2View<App>,
    completion: CompletionView<App>,
    states: RatchetStatesView,
    application_data: App::Data,
    kid_send: u32,
    kid_recv: u32,
    packet: Seq<u8>,
    current_time: i64,
)
    requires
        completion.noise == noise,
    ensures
        ({
            let nk = noise.split::<App>();
            let kek = noise.ask::<App>(LABEL_KEX_KEY@);
            let rk = noise.ask::<App>(LABEL_RATCHET_STATE@);
            let a3 = a3_session(zeta, settings, noise, states, kid_send, packet, current_time);
            let made = established(b2, settings, completion, application_data, current_time).0;
            let s1 = zeta.s1_session(settings, noise, kid_send, current_time);
            let r2 = zeta.r2_session(settings, noise, kid_send, kid_recv, packet, current_time);
            &&& a3.key(true).send.nk == Some(nk.1) && a3.key(true).recv.nk == Some(nk.0)
            &&& a3.key(true).send.kek == Some(kek.1) && a3.key(true).recv.kek == Some(kek.0)
            &&& made.key(false).send.nk == Some(nk.0) && made.key(false).recv.nk == Some(nk.1)
            &&& made.key(false).send.kek == Some(kek.0) && made.key(false).recv.kek == Some(kek.1)
            &&& s1.key(false).send.nk == Some(nk.1) && s1.key(false).recv.nk == Some(nk.0)
            &&& s1.key(false).send.kek == Some(kek.1) && s1.key(false).recv.kek == Some(kek.0)
            &&& r2.key(true).send.nk == Some(nk.0) && r2.key(true).recv.nk == Some(nk.1)
            &&& r2.key(true).send.kek == Some(kek.0) && r2.key(true).recv.kek == Some(kek.1)
            &&& made.ratchet_states.first matches Some(new1)
            &&& new1.key == rk.0 && new1.fingerprint == Some(rk.1)
            &&& s1.ratchet_states.first matches Some(new2)
            &&& new2.key == rk.0 && new2.fingerprint == Some(rk.1)
            &&& r2.ratchet_states.first matches Some(new3)
            &&& new3.key == rk.0 && new3.fingerprint == Some(rk.1)
        }),
{
}

/// A packet of a session is what the cipher makes of it: sealed under the key and the nonce, with
/// the tag behind it. It opens exactly where the cipher opens it, into what the cipher opens it
/// into; so nothing that the cipher does not authenticate is ever taken.
pub proof fn law_packets_sealed<App: ApplicationLayer>(
    key: Seq<u8>,
    nonce: Seq<u8>,
    plain: Seq<u8>,
    packet: Seq<u8>,
)
    requires
        packet.len() >= 16,
    ensures
        packet_sealed::<App>(key, nonce, plain) == App::Aead::sealed(key, nonce, seq![], plain)
            + App::Aead::tag(key, nonce, seq![], plain),
        packet_opened::<App>(key, nonce, packet) == App::Aead::opened(
            key,
            nonce,
            seq![],
            packet.subrange(0, packet.len() - 16),
            packet.subrange(packet.len() - 16, packet.len() as int),
        ),
        control_tag::<App>(key, nonce) == App::Aead::tag(key, nonce, seq![], seq![]),
        control_authentic::<App>(key, nonce, packet) <==> App::Aead::opened(
            key,
            nonce,
            seq![],
            seq![],
            packet,
        ) is Some,
{
}

/// What is sealed in a handshake is bound to its transcript, and opens only under the same one.
pub proof fn law_payloads_bound<App: ApplicationLayer>(
    noise: Noise,
    nonce: Seq<u8>,
    plain: Seq<u8>,
    cipher: Seq<u8>,
    tag: Seq<u8>,
)
    ensures
        noise.sealed::<App>(nonce, plain) == App::Aead::sealed(noise.k, nonce, noise.h, plain)
            + App::Aead::tag(noise.k, nonce, noise.h, plain),
        noise.opened::<App>(nonce, cipher, tag) == App::Aead::opened(
            noise.k,
            nonce,
            noise.h,
            cipher,
            tag,
        ),
{
}

/// The two payloads of a hello are sealed under different nonces.
pub proof fn law_hello_nonces_differ<App: ApplicationLayer>(
    kid: u32,
    s_public: Seq<u8>,
    e_public: Seq<u8>,
    es: Seq<u8>,
    e1_public: Seq<u8>,
    fingerprints: Seq<u8>,
)
    ensures
        exists|n1: Seq<u8>, n2: Seq<u8>, noise1: Noise, noise2: Noise|
            {
                &&& n1 != n2
                &&& hello::<App>(
                    kid,
                    s_public,
                    e_public,
                    es,
                    e1_public,
                    fingerprints,
                ).1 == u32_be(kid) + e_public + #[trigger] noise1.sealed::<App>(n1, e1_public)
                    + #[trigger] noise2.sealed::<App>(n2, fingerprints)
            },
{
    let n0 = hello_start::<App>(u32_be(kid), s_public, e_public, es);
    let a = nonce_spec(PACKET_TYPE_HANDSHAKE_HELLO, 0);
    let b = nonce_spec(PACKET_TYPE_HANDSHAKE_HELLO, 1);
    if a == b {
        law_nonce_injective(PACKET_TYPE_HANDSHAKE_HELLO, 0, PACKET_TYPE_HANDSHAKE_HELLO, 1);
    }
    let e1 = n0.sealed::<App>(a, e1_public);
    let n1 = n0.mix_hash::<App>(e1);
    let payload = n1.sealed::<App>(b, fingerprints);
    assert(hello::<App>(kid, s_public, e_public, es, e1_public, fingerprints).1 == u32_be(kid)
        + e_public + n0.sealed::<App>(a, e1_public) + n1.sealed::<App>(b, fingerprints));
}

} // verus!
