//! What holds between the contexts of two peers, and of one context over time.

use vstd::prelude::*;

use crate::application::ApplicationLayer;
use crate::context::ContextView;
use crate::crypto::Aes256Prp;
use crate::fragged::{law_fragments_carry_packet, law_fragments_collected};
use crate::outgoing::is_wire;
use crate::packet_buffer::payloads;
use crate::proto::{
    AES_BLOCK_SIZE, AES_GCM_IV_SIZE, AES_GCM_TAG_SIZE, HANDSHAKE_RESPONSE_SIZE, HEADER_AUTH_END,
    HEADER_AUTH_START, HEADER_SIZE, MAX_FRAGMENTS, NONCE_SIZE_DIFF, PACKET_NONCE_START,
    PACKET_TYPE_DATA, PACKET_TYPE_HANDSHAKE_RESPONSE, PACKET_TYPE_USES_COUNTER_FIRST,
    PACKET_TYPE_USES_COUNTER_LAST, SESSION_MAX_FRAGMENTS_OOO,
};
use crate::result::{FaultType, ReceiveError, SessionEvent, SessionHandle, FAULT_EXPIRED_COUNTER};
use crate::session::{packet_of, Processed, SessionView};
use crate::window::{law_counter_taken_once, window_takes};
use crate::wire::{
    fragment_header, fragment_of, is_header, law_fragment_header_read, law_fragments_adjoin,
    law_nonce_carries, law_protection_undone, nonce_counter, nonce_type, unprotected, wire_fragment,
};
use crate::zeta::laws::{law_data_received, opens_what_it_seals};
use crate::zeta::{nonce_spec, Packet, PacketView, ZetaView};

verus! {

/// A block cipher gives back what it has encrypted.
pub open spec fn decrypts_what_it_encrypts<P: Aes256Prp>() -> bool {
    forall|key: Seq<u8>, block: Seq<u8>|
        block.len() == AES_BLOCK_SIZE ==> {
            let cipher = #[trigger] P::block_encrypted(key, block);
            cipher.len() == AES_BLOCK_SIZE && P::block_decrypted(key, cipher) == block
        }
}

/// No two sessions of a context receive under the same id.
pub proof fn law_ids_unique<App: ApplicationLayer>(
    context: ContextView<App>,
    i: int,
    j: int,
    i_next: bool,
    j_next: bool,
)
    requires
        context.wf(),
        context.session(i) matches Some(a) && context.session(j) matches Some(b)
            && a.zeta.key(i_next).recv.kid is Some && a.zeta.key(i_next).recv.kid
            == b.zeta.key(j_next).recv.kid,
    ensures
        i == j,
{
    let a = context.sessions[i]->0;
    let b = context.sessions[j]->0;
    assert(context.registered(i, a.zeta));
    assert(context.registered(j, b.zeta));
    assert(a.zeta.key(i_next).recv.kid == b.zeta.key(j_next).recv.kid);
}

/// A packet that a session has taken is not looked at again, and neither is any other with its
/// counter. The response to a hello is the exception: it carries no counter of the session.
pub proof fn law_no_replay<App: ApplicationLayer>(
    app: App,
    before: SessionView<App>,
    s_secret: App::KeyPair,
    session: SessionHandle,
    kid: u32,
    kid_new: u32,
    n: Seq<u8>,
    packet: Seq<u8>,
    current_time: i64,
    after: SessionView<App>,
    app_after: App,
    r: Result<Processed, ReceiveError>,
    packet_type: u8,
)
    requires
        before.wf(),
        before.packet_processed(
            app,
            s_secret,
            session,
            kid,
            kid_new,
            n,
            packet,
            current_time,
            after,
            app_after,
            r,
        ),
        r is Ok,
        nonce_type(n) != PACKET_TYPE_HANDSHAKE_RESPONSE,
        window_takes(before.window, nonce_counter(n)),
        PACKET_TYPE_USES_COUNTER_FIRST <= packet_type <= PACKET_TYPE_USES_COUNTER_LAST,
    ensures
        after.fragment_refused(packet_type, nonce_counter(n)) == Some(
            (FaultType::ExpiredCounter, false, FAULT_EXPIRED_COUNTER),
        ),
{
    assert(after.window == before.with_counter(nonce_counter(n)).window);
    law_counter_taken_once(before.window, nonce_counter(n), after.window);
}

/// A fragment of a packet reads back, at the other end of the wire, as the fragment that it was
/// made from: its number, the number of fragments, and the nonce of the packet.
pub proof fn law_wire_fragment_read<App: ApplicationLayer>(
    packet: PacketView,
    packet_type: u8,
    counter: u64,
    head: Seq<u8>,
    hk: Seq<u8>,
    count: int,
    no: int,
)
    requires
        decrypts_what_it_encrypts::<App::Prp>(),
        is_header(head, packet.kid, packet.nonce),
        packet.nonce == nonce_spec(packet_type, counter),
        0 <= no < count <= MAX_FRAGMENTS,
        packet.payload.len() / count as nat >= HEADER_AUTH_END - HEADER_SIZE,
    ensures
        ({
            let wire = wire_fragment::<App>(head + packet.payload, count, Some(hk), no);
            let f = fragment_of(head + packet.payload, count, no);
            &&& unprotected::<App>(hk, wire) == f
            &&& fragment_header(f) == Some((no, count, packet.nonce))
            &&& nonce_type(packet.nonce) == packet_type
            &&& nonce_counter(packet.nonce) == counter
        }),
{
    let whole = head + packet.payload;
    let len = packet.payload.len() as int;
    let f = fragment_of(whole, count, no);
    assert(len > 0) by (nonlinear_arith)
        requires
            len / count >= 4,
            count > 0,
            len >= 0,
    ;
    assert(whole.len() - HEADER_SIZE == len);
    law_fragments_adjoin(len, count, no);
    law_fragment_header_read(whole, count, no);
    law_nonce_carries(packet_type, counter);
    assert(f.len() >= HEADER_AUTH_END);
    let block = f.subrange(HEADER_AUTH_START as int, HEADER_AUTH_END as int);
    law_protection_undone::<App>(hk, f);
    assert(whole.subrange(PACKET_NONCE_START as int, HEADER_SIZE as int) =~= head.subrange(
        PACKET_NONCE_START as int,
        HEADER_SIZE as int,
    ));
    assert(seq![0u8, 0u8] + packet.nonce.subrange(NONCE_SIZE_DIFF as int, AES_GCM_IV_SIZE as int)
        =~= packet.nonce);
}

/// Data that one end sends in a single fragment comes out at the other end, where its keys are
/// mirrored and the counter has not been seen.
pub proof fn law_data_delivered<App: ApplicationLayer>(
    sender: ZetaView<App>,
    receiver: SessionView<App>,
    is_next: bool,
    data: Seq<u8>,
    fragments: Seq<Seq<u8>>,
    mtu: usize,
)
    requires
        opens_what_it_seals::<App::Aead>(),
        decrypts_what_it_encrypts::<App::Prp>(),
        sender.wf(),
        sender.can_send(),
        !(receiver.zeta.beta is Null),
        sender.key(false).send.nk == receiver.zeta.key(is_next).recv.nk,
        receiver.zeta.keys_of(sender.key(false).send.kid->0) == Some(is_next),
        sender.hk_send == receiver.zeta.hk_recv,
        window_takes(receiver.window, sender.send_counter),
        is_wire::<App>(fragments, sender.data_packet(data), Some(sender.hk_send), mtu),
        fragments.len() == 1,
    ensures
        ({
            let packet = sender.data_packet(data);
            let (after, taken) = receiver.fragment_taken(fragments[0]);
            &&& after == receiver
            &&& taken matches Ok(Some((n, whole)))
            &&& n == packet.nonce
            &&& packet_of(nonce_type(n), whole, HANDSHAKE_RESPONSE_SIZE as int) == Some(
                packet.payload,
            )
            &&& receiver.zeta.received(packet.kid, n, packet.payload) matches Ok(d)
            &&& d.subrange(0, d.len() - AES_GCM_TAG_SIZE) == data
        }),
{
    let packet = sender.data_packet(data);
    let hk = sender.hk_send;
    crate::zeta::laws::law_sealed_packet_opens::<App>(
        sender.key(false).send.nk->0,
        packet.nonce,
        data,
    );
    let head = choose|head: Seq<u8>|
        {
            &&& #[trigger] is_header(head, packet.kid, packet.nonce)
            &&& forall|no: int|
                0 <= no < 1 ==> #[trigger] fragments[no] == wire_fragment::<App>(
                    head + packet.payload,
                    1,
                    Some(hk),
                    no,
                )
        };
    let len = packet.payload.len() as int;
    assert(len / 1 == len) by (nonlinear_arith);
    law_wire_fragment_read::<App>(
        packet,
        PACKET_TYPE_DATA,
        sender.send_counter,
        head,
        hk,
        1,
        0,
    );
    let f = fragment_of(head + packet.payload, 1, 0);
    assert(fragments[0] == wire_fragment::<App>(head + packet.payload, 1, Some(hk), 0));
    law_fragments_carry_packet(head + packet.payload, 1);
    assert(seq![f] =~= Seq::new(1, |no: int| fragment_of(head + packet.payload, 1, no)));
    assert((head + packet.payload).subrange(
        HEADER_SIZE as int,
        (head + packet.payload).len() as int,
    ) =~= packet.payload);
    law_data_received(sender, receiver.zeta, is_next, data);
}

/// However the fragments of a packet come to a session, each once, the packet comes out of them
/// with the last one. `have` are the numbers of the fragments that came before this one.
pub proof fn law_fragment_delivered<App: ApplicationLayer>(
    receiver: SessionView<App>,
    packet: PacketView,
    packet_type: u8,
    counter: u64,
    head: Seq<u8>,
    count: int,
    no: int,
    have: Set<int>,
)
    requires
        decrypts_what_it_encrypts::<App::Prp>(),
        receiver.wf(),
        is_header(head, packet.kid, packet.nonce),
        packet.nonce == nonce_spec(packet_type, counter),
        1 < count <= MAX_FRAGMENTS,
        0 <= no < count,
        !have.contains(no),
        packet.payload.len() / count as nat >= HEADER_AUTH_END - HEADER_SIZE,
        receiver.fragment_refused(packet_type, counter) is None,
        ({
            let slot = receiver.defrag[counter as int % SESSION_MAX_FRAGMENTS_OOO as int];
            slot.collects(
                packet.nonce,
                Seq::new(count as nat, |k: int| fragment_of(head + packet.payload, count, k)),
                have,
            ) || (have.is_empty() && (slot.nonce != packet.nonce || slot.empty()))
        }),
    ensures
        ({
            let fragments = Seq::new(
                count as nat,
                |k: int| fragment_of(head + packet.payload, count, k),
            );
            let wire = wire_fragment::<App>(
                head + packet.payload,
                count,
                Some(receiver.zeta.hk_recv),
                no,
            );
            let (after, taken) = receiver.fragment_taken(wire);
            let complete = forall|k: int|
                0 <= k < count ==> #[trigger] have.insert(no).contains(k);
            &&& complete ==> taken == Ok::<
                Option<(Seq<u8>, Seq<Seq<u8>>)>,
                (FaultType, bool, u32),
            >(Some((packet.nonce, fragments)))
            &&& payloads(fragments) == packet.payload
            &&& !complete ==> taken == Ok::<
                Option<(Seq<u8>, Seq<Seq<u8>>)>,
                (FaultType, bool, u32),
            >(None)
            &&& !complete ==> after.defrag[counter as int
                % SESSION_MAX_FRAGMENTS_OOO as int].collects(
                packet.nonce,
                fragments,
                have.insert(no),
            )
        }),
{
    let whole = head + packet.payload;
    let hk = receiver.zeta.hk_recv;
    let fragments = Seq::new(count as nat, |k: int| fragment_of(whole, count, k));
    let slot = receiver.defrag[counter as int % SESSION_MAX_FRAGMENTS_OOO as int];
    law_wire_fragment_read::<App>(packet, packet_type, counter, head, hk, count, no);
    law_fragments_collected(slot, packet.nonce, fragments, have, no);
    assert(packet.payload.len() > 0) by {
        let len = packet.payload.len() as int;
        assert(len > 0) by (nonlinear_arith)
            requires
                len / count >= 4,
                count > 0,
                len >= 0,
        ;
    }
    law_fragments_carry_packet(whole, count);
    assert(whole.subrange(HEADER_SIZE as int, whole.len() as int) =~= packet.payload);
    assert(fragments[no] == fragment_of(whole, count, no));
}

/// No packet takes a session back into its handshake: only a session that waits for a response
/// comes to wait for a confirmation, and none comes to wait for a response. A session is
/// established, or refused, only while it waits for a confirmation, and then waits no more; so
/// each happens at most once, and only to a session that was opened.
pub proof fn law_handshake_once<App: ApplicationLayer>(
    app: App,
    before: SessionView<App>,
    s_secret: App::KeyPair,
    session: SessionHandle,
    kid: u32,
    kid_new: u32,
    n: Seq<u8>,
    packet: Seq<u8>,
    current_time: i64,
    after: SessionView<App>,
    app_after: App,
    r: Result<Processed, ReceiveError>,
)
    requires
        before.packet_processed(
            app,
            s_secret,
            session,
            kid,
            kid_new,
            n,
            packet,
            current_time,
            after,
            app_after,
            r,
        ),
    ensures
        after.zeta.beta is A1 ==> before.zeta.beta is A1,
        after.zeta.beta is A3 ==> before.zeta.beta is A1 || before.zeta.beta is A3,
        r matches Ok(p) ==> (p.event == SessionEvent::Established ==> before.zeta.beta is A3
            && after.zeta.beta is S2),
        r matches Ok(p) ==> (p.event == SessionEvent::Rejected ==> before.zeta.beta is A3
            && after.zeta.beta is Null),
{
}

/// The timers of a session do not take it back into its handshake either.
pub proof fn law_timers_keep_stage<App: ApplicationLayer>(
    app: App,
    before: SessionView<App>,
    s_secret: App::KeyPair,
    kid_new: u32,
    current_time: i64,
    after: SessionView<App>,
    next: Option<i64>,
    packet: Option<Packet>,
)
    requires
        before.timers_processed(app, s_secret, kid_new, current_time, after, next, packet),
    ensures
        after.zeta.beta is A1 ==> before.zeta.beta is A1,
        after.zeta.beta is A3 ==> before.zeta.beta is A3,
        before.zeta.beta is Null ==> after == before,
{
}

/// An expired session stays expired, whatever comes for it.
pub proof fn law_expired_stays<App: ApplicationLayer>(
    app: App,
    before: SessionView<App>,
    s_secret: App::KeyPair,
    session: SessionHandle,
    kid: u32,
    kid_new: u32,
    n: Seq<u8>,
    packet: Seq<u8>,
    current_time: i64,
    after: SessionView<App>,
    app_after: App,
    r: Result<Processed, ReceiveError>,
)
    requires
        before.zeta.beta is Null,
        before.packet_processed(
            app,
            s_secret,
            session,
            kid,
            kid_new,
            n,
            packet,
            current_time,
            after,
            app_after,
            r,
        ),
    ensures
        after.zeta.beta is Null,
{
}

} // verus!
