//! What becomes of the fragments of a packet that come to a context: however they come, each once,
//! the packet is put together and handled with the last one, as if it had come in one piece.

use vstd::prelude::*;

use crate::application::{ApplicationLayer, RatchetStates, Settings};
use crate::bytes::contents;
use crate::context::receive::{reply_view, Received};
use crate::context::ContextView;
use crate::frag_cache::{cache_after, entry_for, entry_from, fragments_of, FragEntryView};
use crate::fragged::{law_fragments_carry_packet, law_fragments_collected, FraggedView};
use crate::handshake_cache::{handshake_from, lemma_handshake_from, HandshakeView};
use crate::laws::{decrypts_what_it_encrypts, law_wire_fragment_read};
use crate::outgoing::{effective_mtu, is_wire, lemma_fragments_protectable, outgoing_view};
use crate::packet_buffer::payloads;
use crate::proto::{
    AES_GCM_IV_SIZE, AES_GCM_TAG_SIZE, COUNTER_WINDOW_MAX_OOO, COUNTER_WINDOW_MAX_SKIP_AHEAD,
    HANDSHAKE_COMPLETION_MAX_SIZE, HANDSHAKE_HELLO_CHALLENGE_MAX_SIZE, HANDSHAKE_RESPONSE_SIZE,
    HEADER_SIZE, MAX_FRAGMENTS, MAX_UNASSOCIATED_PACKETS, NONCE_SIZE_DIFF, PACKET_NONCE_START,
    PACKET_TYPE_CHALLENGE, PACKET_TYPE_DATA, PACKET_TYPE_HANDSHAKE_COMPLETION,
    PACKET_TYPE_HANDSHAKE_HELLO, PACKET_TYPE_KEY_CONFIRM, SESSION_MAX_FRAGMENTS_OOO,
};
use crate::result::{
    FaultType, ReceiveError, ReceiveOk, SendError, SessionEvent, SessionHandle, ZetaError,
};
use crate::session::{packet_of, Processed, SessionView};
use crate::wire::{
    fragment_count, fragment_header, fragment_of, is_header, law_fragment_header_read,
    law_nonce_carries, nonce_counter, nonce_type, unprotected, wire_fragment,
};
use crate::zeta::completion::{completion_handled, completion_read};
use crate::zeta::laws::{
    law_accepted_session_made, law_data_received, law_sealed_packet_opens, opens_what_it_seals,
};
use crate::zeta::opening::law_session_made;
use crate::zeta::outcomes::storage_works;
use crate::zeta::{nonce_spec, Packet, PacketView, Zeta};

verus! {

/// Each of the numbers below `count` once, in any order.
pub open spec fn is_order(order: Seq<int>, count: int) -> bool {
    &&& order.len() == count
    &&& order.no_duplicates()
    &&& forall|no: int| 0 <= no < count <==> #[trigger] order.contains(no)
}

/// A packet as it goes over the wire in one piece.
pub open spec fn is_one_piece<App: ApplicationLayer>(
    wire: Seq<u8>,
    packet: PacketView,
    hk: Option<Seq<u8>>,
) -> bool {
    exists|head: Seq<u8>|
        {
            &&& #[trigger] is_header(head, packet.kid, packet.nonce)
            &&& wire == wire_fragment::<App>(head + packet.payload, 1, hk, 0)
        }
}

/// The arrival of fragments at a context, one after the other, with what came of each.
pub struct Arrivals<App: ApplicationLayer> {
    pub fragments: Seq<Seq<u8>>,
    /// The order in which the fragments come.
    pub order: Seq<int>,
    pub kid: u32,
    pub address: Seq<u8>,
    pub times: Seq<i64>,
    /// The context before each fragment, and after the last one.
    pub states: Seq<ContextView<App>>,
    /// The application before each fragment, and after the last one.
    pub apps: Seq<App>,
    pub outs: Seq<Received>,
}

impl<App: ApplicationLayer> Arrivals<App> {
    /// What came of the fragment in place `k` of the order is what comes of it.
    pub open spec fn comes(self, k: int) -> bool {
        self.states[k].fragment_received(
            self.apps[k],
            self.kid,
            self.address,
            self.fragments[self.order[k]],
            self.times[k],
            self.states[k + 1],
            self.apps[k + 1],
            self.outs[k],
        )
    }

    /// Each fragment comes once, and what came of each is what comes of it.
    pub open spec fn happen(self) -> bool {
        let count = self.fragments.len() as int;
        &&& count > 0
        &&& is_order(self.order, count)
        &&& self.states.len() == count + 1
        &&& self.apps.len() == count + 1
        &&& self.outs.len() == count
        &&& self.times.len() == count
        &&& forall|k: int| 0 <= k < count ==> #[trigger] self.comes(k)
    }

    /// The numbers of the fragments that came before the one in place `k` of the order.
    pub open spec fn came(self, k: int) -> Set<int> {
        Set::new(|no: int| exists|j: int| 0 <= j < k && #[trigger] self.order[j] == no)
    }

    /// Every fragment but the last was taken without an answer.
    pub open spec fn quiet_before_last(self) -> bool {
        forall|k: int|
            0 <= k < self.fragments.len() - 1 ==> {
                &&& (#[trigger] self.outs[k]).result == Ok::<ReceiveOk, ReceiveError>(
                    ReceiveOk::Unassociated,
                )
                &&& self.outs[k].reply is None
                &&& self.outs[k].data@.len() == 0
                &&& self.apps[k + 1] == self.apps[0]
            }
    }
}

/// The fragments that have come before a place of the order, and the one in it.
proof fn lemma_came<App: ApplicationLayer>(arrivals: Arrivals<App>, k: int)
    requires
        is_order(arrivals.order, arrivals.fragments.len() as int),
        0 <= k < arrivals.fragments.len(),
    ensures
        0 <= arrivals.order[k] < arrivals.fragments.len(),
        !arrivals.came(k).contains(arrivals.order[k]),
        arrivals.came(k).insert(arrivals.order[k]) =~= arrivals.came(k + 1),
        k == 0 ==> arrivals.came(k).is_empty(),
        ({
            let complete = forall|no: int|
                0 <= no < arrivals.fragments.len() ==> #[trigger] arrivals.came(k).insert(
                    arrivals.order[k],
                ).contains(no);
            complete <==> k == arrivals.fragments.len() - 1
        }),
{
    let count = arrivals.fragments.len() as int;
    let order = arrivals.order;
    assert(order.contains(order[k]));
    assert forall|no: int| arrivals.came(k + 1).contains(no) implies arrivals.came(k).insert(
        order[k],
    ).contains(no) by {
        let j = choose|j: int| 0 <= j < k + 1 && #[trigger] order[j] == no;
        if j < k {
            assert(arrivals.came(k).contains(no));
        }
    }
    assert forall|no: int| arrivals.came(k).insert(order[k]).contains(no) implies arrivals.came(
        k + 1,
    ).contains(no) by {
        if no != order[k] {
            let j = choose|j: int| 0 <= j < k && #[trigger] order[j] == no;
            assert(0 <= j < k + 1 && order[j] == no);
        }
    }
    if k == count - 1 {
        assert forall|no: int| 0 <= no < count implies #[trigger] arrivals.came(k).insert(
            order[k],
        ).contains(no) by {
            assert(order.contains(no));
            let j = choose|j: int| 0 <= j < order.len() && order[j] == no;
            assert(arrivals.came(k + 1).contains(no));
        }
    } else {
        let last = order[count - 1];
        assert(order.contains(last));
        assert(!arrivals.came(k + 1).contains(last));
        assert(!arrivals.came(k).insert(order[k]).contains(last));
    }
}

/// The fragments of a packet can be read, and carry it.
proof fn lemma_wire_read<App: ApplicationLayer>(
    fragments: Seq<Seq<u8>>,
    packet: PacketView,
    packet_type: u8,
    counter: u64,
    hk: Seq<u8>,
    mtu: usize,
) -> (plain: Seq<Seq<u8>>)
    requires
        decrypts_what_it_encrypts::<App::Prp>(),
        is_wire::<App>(fragments, packet, Some(hk), mtu),
        packet.nonce == nonce_spec(packet_type, counter),
        packet.payload.len() >= AES_GCM_TAG_SIZE,
        0 < fragments.len() <= MAX_FRAGMENTS,
    ensures
        plain.len() == fragments.len(),
        payloads(plain) == packet.payload,
        nonce_type(packet.nonce) == packet_type,
        nonce_counter(packet.nonce) == counter,
        forall|no: int|
            0 <= no < fragments.len() ==> {
                &&& unprotected::<App>(hk, #[trigger] fragments[no]) == plain[no]
                &&& fragment_header(plain[no]) == Some((no, fragments.len() as int, packet.nonce))
                &&& plain[no].len() >= HEADER_SIZE
            },
{
    let count = fragments.len() as int;
    let payload_mtu = effective_mtu(mtu) - HEADER_SIZE;
    let head = choose|head: Seq<u8>|
        {
            &&& #[trigger] is_header(head, packet.kid, packet.nonce)
            &&& forall|no: int|
                0 <= no < count ==> #[trigger] fragments[no] == wire_fragment::<App>(
                    head + packet.payload,
                    count,
                    Some(hk),
                    no,
                )
        };
    let whole = head + packet.payload;
    let plain = Seq::new(count as nat, |no: int| fragment_of(whole, count, no));
    lemma_fragments_protectable(packet.payload.len() as int, payload_mtu);
    assert forall|no: int| 0 <= no < fragments.len() implies {
        &&& unprotected::<App>(hk, #[trigger] fragments[no]) == plain[no]
        &&& fragment_header(plain[no]) == Some((no, count, packet.nonce))
        &&& plain[no].len() >= HEADER_SIZE
    } by {
        law_wire_fragment_read::<App>(packet, packet_type, counter, head, hk, count, no);
    }
    law_fragments_carry_packet(whole, count);
    assert(whole.subrange(HEADER_SIZE as int, whole.len() as int) =~= packet.payload);
    law_nonce_carries(packet_type, counter);
    plain
}

/// A packet in one piece can be read, and carries itself.
proof fn lemma_one_piece_read<App: ApplicationLayer>(
    wire: Seq<u8>,
    packet: PacketView,
    packet_type: u8,
    counter: u64,
    hk: Seq<u8>,
)
    requires
        decrypts_what_it_encrypts::<App::Prp>(),
        is_one_piece::<App>(wire, packet, Some(hk)),
        packet.nonce == nonce_spec(packet_type, counter),
        packet.payload.len() >= AES_GCM_TAG_SIZE,
    ensures
        ({
            let f = unprotected::<App>(hk, wire);
            &&& fragment_header(f) == Some((0int, 1int, packet.nonce))
            &&& payloads(seq![f]) == packet.payload
        }),
        nonce_type(packet.nonce) == packet_type,
        nonce_counter(packet.nonce) == counter,
{
    let head = choose|head: Seq<u8>|
        {
            &&& #[trigger] is_header(head, packet.kid, packet.nonce)
            &&& wire == wire_fragment::<App>(head + packet.payload, 1, Some(hk), 0)
        };
    let whole = head + packet.payload;
    let len = packet.payload.len() as int;
    assert(len / 1 == len) by (nonlinear_arith);
    law_wire_fragment_read::<App>(packet, packet_type, counter, head, hk, 1, 0);
    law_fragments_carry_packet(whole, 1);
    assert(seq![fragment_of(whole, 1, 0)] =~= Seq::new(
        1,
        |no: int| fragment_of(whole, 1, no),
    ));
    assert(whole.subrange(HEADER_SIZE as int, whole.len() as int) =~= packet.payload);
}

/// What a session does with a fragment of a packet that it looks at.
proof fn lemma_fragment_taken<App: ApplicationLayer>(
    s: SessionView<App>,
    fragment: Seq<u8>,
    nonce: Seq<u8>,
    plain: Seq<Seq<u8>>,
    no: int,
    have: Set<int>,
)
    requires
        s.defrag.len() == SESSION_MAX_FRAGMENTS_OOO,
        1 < plain.len(),
        0 <= no < plain.len(),
        !have.contains(no),
        s.fragment_refused(nonce_type(nonce), nonce_counter(nonce)) is None,
        unprotected::<App>(s.zeta.hk_recv, fragment) == plain[no],
        fragment_header(plain[no]) == Some((no, plain.len() as int, nonce)),
        ({
            let slot = s.defrag[nonce_counter(nonce) as int % SESSION_MAX_FRAGMENTS_OOO as int];
            slot.collects(nonce, plain, have) || (have.is_empty() && (slot.nonce != nonce
                || slot.empty()))
        }),
    ensures
        ({
            let slot = nonce_counter(nonce) as int % SESSION_MAX_FRAGMENTS_OOO as int;
            let (after, taken) = s.fragment_taken(fragment);
            let complete = forall|k: int|
                0 <= k < plain.len() ==> #[trigger] have.insert(no).contains(k);
            &&& after == (SessionView { defrag: after.defrag, ..s })
            &&& after.defrag.len() == SESSION_MAX_FRAGMENTS_OOO
            &&& complete ==> taken == Ok::<
                Option<(Seq<u8>, Seq<Seq<u8>>)>,
                (FaultType, bool, u32),
            >(Some((nonce, plain)))
            &&& !complete ==> taken == Ok::<
                Option<(Seq<u8>, Seq<Seq<u8>>)>,
                (FaultType, bool, u32),
            >(None)
            &&& !complete ==> after.defrag[slot].collects(nonce, plain, have.insert(no))
        }),
{
    let slot = nonce_counter(nonce) as int % SESSION_MAX_FRAGMENTS_OOO as int;
    law_fragments_collected(s.defrag[slot], nonce, plain, have, no);
}

/// What comes of a fragment that completes no packet of a session.
proof fn lemma_fragment_kept<App: ApplicationLayer>(
    before: ContextView<App>,
    app: App,
    i: usize,
    kid: u32,
    address: Seq<u8>,
    fragment: Seq<u8>,
    current_time: i64,
    after: ContextView<App>,
    app_after: App,
    out: Received,
)
    requires
        kid != 0,
        before.session_of(kid) == Some(i),
        (before.sessions[i as int]->0).fragment_taken(fragment).1 == Ok::<
            Option<(Seq<u8>, Seq<Seq<u8>>)>,
            (FaultType, bool, u32),
        >(None),
        before.fragment_received(
            app,
            kid,
            address,
            fragment,
            current_time,
            after,
            app_after,
            out,
        ),
    ensures
        after == before.with_session(i, (before.sessions[i as int]->0).fragment_taken(fragment).0),
        app_after == app,
        out.takes(),
{
}

/// What a session must look like, and what its fragments must, for a packet to be put together.
spec fn session_expects<App: ApplicationLayer>(
    arrivals: Arrivals<App>,
    i: usize,
    s: SessionView<App>,
    nonce: Seq<u8>,
    plain: Seq<Seq<u8>>,
) -> bool {
    let slot = s.defrag[nonce_counter(nonce) as int % SESSION_MAX_FRAGMENTS_OOO as int];
    &&& arrivals.kid != 0
    &&& arrivals.states[0].session_of(arrivals.kid) == Some(i)
    &&& arrivals.states[0].sessions[i as int] == Some(s)
    &&& 1 < plain.len() == arrivals.fragments.len()
    &&& s.defrag.len() == SESSION_MAX_FRAGMENTS_OOO
    &&& slot.nonce != nonce || slot.empty()
    &&& s.fragment_refused(nonce_type(nonce), nonce_counter(nonce)) is None
    &&& forall|no: int|
        0 <= no < plain.len() ==> {
            &&& unprotected::<App>(s.zeta.hk_recv, #[trigger] arrivals.fragments[no]) == plain[no]
            &&& fragment_header(plain[no]) == Some((no, plain.len() as int, nonce))
        }
}

/// The session once the fragments before place `k` of the order have come: it collects them, and is
/// otherwise as it was.
proof fn lemma_session_collects<App: ApplicationLayer>(
    arrivals: Arrivals<App>,
    i: usize,
    s: SessionView<App>,
    nonce: Seq<u8>,
    plain: Seq<Seq<u8>>,
    k: int,
) -> (now: SessionView<App>)
    requires
        arrivals.happen(),
        session_expects(arrivals, i, s, nonce, plain),
        0 <= k < arrivals.fragments.len(),
    ensures
        arrivals.apps[k] == arrivals.apps[0],
        forall|j: int|
            0 <= j < k ==> (#[trigger] arrivals.outs[j]).takes() && arrivals.apps[j + 1]
                == arrivals.apps[0],
        now == (SessionView { defrag: now.defrag, ..s }),
        now.defrag.len() == SESSION_MAX_FRAGMENTS_OOO,
        arrivals.states[k] == arrivals.states[0].with_session(i, now),
        ({
            let slot = now.defrag[nonce_counter(nonce) as int % SESSION_MAX_FRAGMENTS_OOO as int];
            slot.collects(nonce, plain, arrivals.came(k)) || (k == 0 && (slot.nonce != nonce
                || slot.empty()))
        }),
    decreases k,
{
    let states = arrivals.states;
    if k == 0 {
        assert(states[0].with_session(i, s).sessions =~= states[0].sessions);
        s
    } else {
        let was = lemma_session_collects(arrivals, i, s, nonce, plain, k - 1);
        lemma_came(arrivals, k - 1);
        let no = arrivals.order[k - 1];
        let f = arrivals.fragments[no];
        assert(arrivals.comes(k - 1));
        lemma_fragment_taken(was, f, nonce, plain, no, arrivals.came(k - 1));
        let now = was.fragment_taken(f).0;
        assert(states[k - 1].session_of(arrivals.kid) == Some(i));
        lemma_fragment_kept(
            states[k - 1],
            arrivals.apps[k - 1],
            i,
            arrivals.kid,
            arrivals.address,
            f,
            arrivals.times[k - 1],
            states[k],
            arrivals.apps[k],
            arrivals.outs[k - 1],
        );
        assert(states[k - 1].with_session(i, now).sessions =~= states[0].with_session(
            i,
            now,
        ).sessions);
        assert(arrivals.came(k - 1).insert(no) == arrivals.came(k));
        assert(arrivals.outs[k - 1].takes());
        now
    }
}

/// What comes of a fragment with which a packet of a session is there in full is what comes of the
/// packet in one piece, to a context whose session has kept the same fragments.
proof fn lemma_fragment_completes<App: ApplicationLayer>(
    before: ContextView<App>,
    as_if: ContextView<App>,
    app: App,
    i: usize,
    kid: u32,
    address: Seq<u8>,
    fragment: Seq<u8>,
    wire: Seq<u8>,
    nonce: Seq<u8>,
    plain: Seq<Seq<u8>>,
    one: Seq<u8>,
    current_time: i64,
    after: ContextView<App>,
    app_after: App,
    out: Received,
)
    requires
        kid != 0,
        before.session_of(kid) == Some(i),
        ({
            let was = before.sessions[i as int]->0;
            let now = was.fragment_taken(fragment).0;
            &&& was.fragment_taken(fragment).1 == Ok::<
                Option<(Seq<u8>, Seq<Seq<u8>>)>,
                (FaultType, bool, u32),
            >(Some((nonce, plain)))
            &&& now.zeta == was.zeta
            &&& as_if == before.with_session(i, now)
            &&& now.fragment_taken(wire) == (
                now,
                Ok::<Option<(Seq<u8>, Seq<Seq<u8>>)>, (FaultType, bool, u32)>(
                    Some((nonce, seq![one])),
                ),
            )
        }),
        packet_of(nonce_type(nonce), plain, HANDSHAKE_RESPONSE_SIZE as int) is Some,
        packet_of(nonce_type(nonce), plain, HANDSHAKE_RESPONSE_SIZE as int) == packet_of(
            nonce_type(nonce),
            seq![one],
            HANDSHAKE_RESPONSE_SIZE as int,
        ),
        before.fragment_received(
            app,
            kid,
            address,
            fragment,
            current_time,
            after,
            app_after,
            out,
        ),
    ensures
        as_if.fragment_received(
            app,
            kid,
            address,
            wire,
            current_time,
            after,
            app_after,
            out,
        ),
{
    let was = before.sessions[i as int]->0;
    let now = was.fragment_taken(fragment).0;
    let packet = packet_of(nonce_type(nonce), plain, HANDSHAKE_RESPONSE_SIZE as int)->0;
    assert(before.session_received(
        app,
        i,
        kid,
        fragment,
        current_time,
        after,
        app_after,
        out,
    ));
    let (kid_new, next, r) = choose|
        kid_new: u32,
        next: SessionView<App>,
        r: Result<Processed, ReceiveError>,
    |
        {
            &&& kid_new != 0
            &&& !before.in_use(kid_new)
            &&& #[trigger] now.packet_processed(
                app,
                before.s_secret,
                SessionHandle { index: i },
                kid,
                kid_new,
                nonce,
                packet,
                current_time,
                next,
                app_after,
                r,
            )
            &&& before.processed(i, next, r, after, out)
        };
    assert(!as_if.in_use(kid_new));
    assert(before.refreshed(i, next).sessions =~= as_if.refreshed(i, next).sessions);
    assert(before.without_session(i).sessions =~= as_if.without_session(i).sessions);
    assert(as_if.processed(i, next, r, after, out));
    assert(as_if.session_of(kid) == Some(i));
    assert(as_if.session_received(app, i, kid, wire, current_time, after, app_after, out));
}

/// However the fragments of a packet come to a session, each once, the packet is handled with the
/// last one, exactly as if it had come in one piece, and nothing happens before. Which fragments
/// the session goes on to keep is the only difference. The packet may be of any type that the
/// session looks at; one that carries no data is no larger than a response.
pub proof fn law_session_packet_delivered<App: ApplicationLayer>(
    arrivals: Arrivals<App>,
    packet: PacketView,
    packet_type: u8,
    counter: u64,
    mtu: usize,
    i: usize,
    wire: Seq<u8>,
)
    requires
        decrypts_what_it_encrypts::<App::Prp>(),
        arrivals.happen(),
        arrivals.kid != 0,
        arrivals.fragments.len() <= MAX_FRAGMENTS,
        packet.nonce == nonce_spec(packet_type, counter),
        packet.payload.len() >= AES_GCM_TAG_SIZE,
        packet_type == PACKET_TYPE_DATA || packet.payload.len() <= HANDSHAKE_RESPONSE_SIZE,
        arrivals.states[0].wf(),
        arrivals.states[0].session_of(arrivals.kid) == Some(i),
        ({
            let s = arrivals.states[0].sessions[i as int]->0;
            let slot = s.defrag[counter as int % SESSION_MAX_FRAGMENTS_OOO as int];
            &&& slot.nonce != packet.nonce || slot.empty()
            &&& s.fragment_refused(packet_type, counter) is None
            &&& is_wire::<App>(arrivals.fragments, packet, Some(s.zeta.hk_recv), mtu)
            &&& is_one_piece::<App>(wire, packet, Some(s.zeta.hk_recv))
        }),
    ensures
        arrivals.quiet_before_last(),
        ({
            let last = arrivals.fragments.len() - 1;
            let s = arrivals.states[0].sessions[i as int]->0;
            exists|kept: Seq<FraggedView>|
                (#[trigger] arrivals.states[0].with_session(
                    i,
                    SessionView { defrag: kept, ..s },
                )).fragment_received(
                    arrivals.apps[0],
                    arrivals.kid,
                    arrivals.address,
                    wire,
                    arrivals.times[last],
                    arrivals.states[last + 1],
                    arrivals.apps[last + 1],
                    arrivals.outs[last],
                )
        }),
{
    let count = arrivals.fragments.len() as int;
    let states = arrivals.states;
    let s = states[0].sessions[i as int]->0;
    let hk = s.zeta.hk_recv;
    let nonce = packet.nonce;
    assert(s.wf());
    let plain = lemma_wire_read::<App>(
        arrivals.fragments,
        packet,
        packet_type,
        counter,
        hk,
        mtu,
    );
    lemma_one_piece_read::<App>(wire, packet, packet_type, counter, hk);
    let one = unprotected::<App>(hk, wire);
    let last = count - 1;
    lemma_came(arrivals, last);
    let no = arrivals.order[last];
    let f = arrivals.fragments[no];
    assert(arrivals.comes(last));
    assert(unprotected::<App>(hk, f) == plain[no]);
    if count > 1 {
        assert(session_expects(arrivals, i, s, nonce, plain));
        let was = lemma_session_collects(arrivals, i, s, nonce, plain, last);
        lemma_fragment_taken(was, f, nonce, plain, no, arrivals.came(last));
        let now = was.fragment_taken(f).0;
        let as_if = states[0].with_session(i, SessionView { defrag: now.defrag, ..s });
        assert(states[last].with_session(i, now).sessions =~= as_if.sessions);
        lemma_fragment_completes(
            states[last],
            as_if,
            arrivals.apps[last],
            i,
            arrivals.kid,
            arrivals.address,
            f,
            wire,
            nonce,
            plain,
            one,
            arrivals.times[last],
            states[count],
            arrivals.apps[count],
            arrivals.outs[last],
        );
    } else {
        let as_if = states[0].with_session(i, SessionView { defrag: s.defrag, ..s });
        assert(as_if.sessions =~= states[0].sessions);
        assert(plain =~= seq![plain[0]]);
        assert(no == 0);
        assert(s.fragment_taken(f) == (
            s,
            Ok::<Option<(Seq<u8>, Seq<Seq<u8>>)>, (FaultType, bool, u32)>(
                Some((nonce, seq![plain[0]])),
            ),
        ));
        assert(as_if.session_received(
            arrivals.apps[0],
            i,
            arrivals.kid,
            f,
            arrivals.times[last],
            states[count],
            arrivals.apps[count],
            arrivals.outs[last],
        ));
        lemma_fragment_completes(
            states[0],
            as_if,
            arrivals.apps[0],
            i,
            arrivals.kid,
            arrivals.address,
            f,
            wire,
            nonce,
            plain,
            one,
            arrivals.times[last],
            states[count],
            arrivals.apps[count],
            arrivals.outs[last],
        );
    }
}

/// Data that one end sends, in however many fragments sending allows, comes out at the other end
/// whole: with the last fragment, however they come, each once, where the keys of the two ends are
/// mirrored and the counter has not been seen. The session of the other end is as it was, but for
/// the counters and the fragments that it has seen, and the application was asked for nothing.
pub proof fn law_data_arrives<App: ApplicationLayer>(
    sender: ContextView<App>,
    settings: Settings,
    session: SessionHandle,
    mtu: usize,
    data: Seq<u8>,
    sender_after: ContextView<App>,
    sent: Result<Vec<Vec<u8>>, SendError>,
    arrivals: Arrivals<App>,
    i: usize,
    is_next: bool,
)
    requires
        opens_what_it_seals::<App::Aead>(),
        decrypts_what_it_encrypts::<App::Prp>(),
        sender.wf(),
        sender.sent(settings, session, mtu, data, sender_after, sent),
        sent matches Ok(fragments) && contents(fragments@) == arrivals.fragments,
        arrivals.states[0].wf(),
        arrivals.happen(),
        sender.session(session.index as int) matches Some(s) && arrivals.states[0].session(
            i as int,
        ) matches Some(t) && {
            let counter = s.zeta.send_counter;
            let slot = t.defrag[counter as int % SESSION_MAX_FRAGMENTS_OOO as int];
            let seen = t.window[counter as int % COUNTER_WINDOW_MAX_OOO as int];
            &&& s.zeta.key(false).send.kid == Some(arrivals.kid)
            &&& t.zeta.key(is_next).recv.kid == Some(arrivals.kid)
            &&& is_next || t.zeta.key(true).recv.kid != Some(arrivals.kid)
            &&& t.zeta.key(is_next).recv.nk == s.zeta.key(false).send.nk
            &&& t.zeta.hk_recv == s.zeta.hk_send
            &&& !(t.zeta.beta is Null)
            &&& seen <= counter < seen + COUNTER_WINDOW_MAX_SKIP_AHEAD
            &&& slot.nonce != nonce_spec(PACKET_TYPE_DATA, counter) || slot.empty()
        },
    ensures
        0 < arrivals.fragments.len() <= MAX_FRAGMENTS,
        arrivals.quiet_before_last(),
        ({
            let last = arrivals.fragments.len() - 1;
            let out = arrivals.outs[last];
            &&& out.result == Ok::<ReceiveOk, ReceiveError>(
                ReceiveOk::Associated(SessionHandle { index: i }, SessionEvent::Data),
            )
            &&& out.data@ == data
            &&& out.reply is None
            &&& arrivals.apps[last + 1] == arrivals.apps[0]
            &&& arrivals.states[last + 1].session(i as int) matches Some(now)
            &&& now.zeta == (arrivals.states[0].sessions[i as int]->0).zeta
        }),
{
    let s = sender.sessions[session.index as int]->0;
    let t = arrivals.states[0].sessions[i as int]->0;
    let packet = s.zeta.data_packet(data);
    let counter = s.zeta.send_counter;
    let hk = s.zeta.hk_send;
    assert(s.wf());
    assert(t.wf());
    assert(arrivals.states[0].registered(i as int, t.zeta));
    assert(t.zeta.key(is_next).recv.kid == Some(arrivals.kid));
    assert(s.zeta.key(false).send.nk is Some);
    law_sealed_packet_opens::<App>(s.zeta.key(false).send.nk->0, packet.nonce, data);
    law_data_received(s.zeta, t.zeta, is_next, data);
    let count = arrivals.fragments.len() as int;
    let last = count - 1;
    let head = choose|head: Seq<u8>|
        {
            &&& #[trigger] is_header(head, packet.kid, packet.nonce)
            &&& forall|no: int|
                0 <= no < count ==> #[trigger] arrivals.fragments[no] == wire_fragment::<App>(
                    head + packet.payload,
                    count,
                    Some(hk),
                    no,
                )
        };
    let wire = wire_fragment::<App>(head + packet.payload, 1, Some(hk), 0);
    assert(is_one_piece::<App>(wire, packet, Some(hk)));
    law_nonce_carries(PACKET_TYPE_DATA, counter);
    law_session_packet_delivered(arrivals, packet, PACKET_TYPE_DATA, counter, mtu, i, wire);
    let kept = choose|kept: Seq<FraggedView>|
        (#[trigger] arrivals.states[0].with_session(
            i,
            SessionView { defrag: kept, ..t },
        )).fragment_received(
            arrivals.apps[0],
            arrivals.kid,
            arrivals.address,
            wire,
            arrivals.times[last],
            arrivals.states[last + 1],
            arrivals.apps[last + 1],
            arrivals.outs[last],
        );
    let as_if = arrivals.states[0].with_session(i, SessionView { defrag: kept, ..t });
    lemma_one_piece_read::<App>(wire, packet, PACKET_TYPE_DATA, counter, hk);
    lemma_data_received(
        as_if,
        arrivals.apps[0],
        i,
        arrivals.kid,
        arrivals.address,
        wire,
        packet.nonce,
        packet.payload,
        data,
        arrivals.times[last],
        arrivals.states[last + 1],
        arrivals.apps[last + 1],
        arrivals.outs[last],
    );
}

/// What comes of data in one piece that opens.
proof fn lemma_data_received<App: ApplicationLayer>(
    before: ContextView<App>,
    app: App,
    i: usize,
    kid: u32,
    address: Seq<u8>,
    wire: Seq<u8>,
    nonce: Seq<u8>,
    payload: Seq<u8>,
    data: Seq<u8>,
    current_time: i64,
    after: ContextView<App>,
    app_after: App,
    out: Received,
)
    requires
        kid != 0,
        before.session_of(kid) == Some(i),
        ({
            let s = before.sessions[i as int]->0;
            let f = unprotected::<App>(s.zeta.hk_recv, wire);
            &&& fragment_header(f) == Some((0int, 1int, nonce))
            &&& payloads(seq![f]) == payload
            &&& s.fragment_refused(nonce_type(nonce), nonce_counter(nonce)) is None
            &&& nonce_type(nonce) == PACKET_TYPE_DATA
            &&& s.zeta.received(kid, nonce, payload) matches Ok(d) && d.len() == data.len()
                + AES_GCM_TAG_SIZE && d.subrange(0, data.len() as int) == data
        }),
        before.fragment_received(
            app,
            kid,
            address,
            wire,
            current_time,
            after,
            app_after,
            out,
        ),
    ensures
        out.result == Ok::<ReceiveOk, ReceiveError>(
            ReceiveOk::Associated(SessionHandle { index: i }, SessionEvent::Data),
        ),
        out.data@ == data,
        out.reply is None,
        app_after == app,
        after.session(i as int) matches Some(now) && now.zeta == (
        before.sessions[i as int]->0).zeta,
{
    let s = before.sessions[i as int]->0;
    let handle = SessionHandle { index: i };
    assert(s.fragment_taken(wire).0 == s);
    assert(before.session_received(
        app,
        i,
        kid,
        wire,
        current_time,
        after,
        app_after,
        out,
    ));
    let (kid_new, next, r) = choose|
        kid_new: u32,
        next: SessionView<App>,
        r: Result<Processed, ReceiveError>,
    |
        {
            &&& kid_new != 0
            &&& !before.in_use(kid_new)
            &&& #[trigger] s.packet_processed(
                app,
                before.s_secret,
                handle,
                kid,
                kid_new,
                nonce,
                payload,
                current_time,
                next,
                app_after,
                r,
            )
            &&& before.processed(i, next, r, after, out)
        };
    assert(s.data_processed(handle, kid, nonce, payload, next, r));
}

/// Which handshake has an id depends on the ids alone.
proof fn lemma_handshake_from_same<App: ApplicationLayer>(
    a: Seq<HandshakeView<App>>,
    b: Seq<HandshakeView<App>>,
    kid: u32,
    k: int,
)
    requires
        0 <= k,
        a.len() == b.len(),
        forall|j: int|
            0 <= j < a.len() ==> (#[trigger] a[j]).b2.kid_recv == (#[trigger] b[j]).b2.kid_recv,
    ensures
        handshake_from(a, kid, k) == handshake_from(b, kid, k),
    decreases a.len() - k,
{
    if k < a.len() {
        assert(a[k].b2.kid_recv == b[k].b2.kid_recv);
        lemma_handshake_from_same(a, b, kid, k + 1);
    }
}

/// What a responder must look like, and what the fragments must, for a completion to be put
/// together.
spec fn handshake_expects<App: ApplicationLayer>(
    arrivals: Arrivals<App>,
    i: int,
    h: HandshakeView<App>,
    nonce: Seq<u8>,
    plain: Seq<Seq<u8>>,
) -> bool {
    &&& arrivals.kid != 0
    &&& arrivals.states[0].session_of(arrivals.kid) is None
    &&& handshake_from(arrivals.states[0].handshakes, arrivals.kid, 0) == Some(i)
    &&& 0 <= i < arrivals.states[0].handshakes.len()
    &&& arrivals.states[0].handshakes[i] == h
    &&& 1 < plain.len() == arrivals.fragments.len()
    &&& h.defrag.nonce != nonce || h.defrag.empty()
    &&& nonce_type(nonce) == PACKET_TYPE_HANDSHAKE_COMPLETION
    &&& nonce_counter(nonce) == 0
    &&& forall|no: int|
        0 <= no < plain.len() ==> {
            &&& unprotected::<App>(h.b2.hk_recv, #[trigger] arrivals.fragments[no]) == plain[no]
            &&& fragment_header(plain[no]) == Some((no, plain.len() as int, nonce))
        }
}

/// The context with other fragments of the completion at place `i`.
spec fn with_defrag<App: ApplicationLayer>(
    context: ContextView<App>,
    i: int,
    defrag: FraggedView,
) -> ContextView<App> {
    context.with_handshakes(
        context.handshakes.update(i, HandshakeView { defrag, ..context.handshakes[i] }),
    )
}

/// The responder once the fragments before place `k` of the order have come: it collects them, and
/// is otherwise as it was.
proof fn lemma_handshake_collects<App: ApplicationLayer>(
    arrivals: Arrivals<App>,
    i: int,
    h: HandshakeView<App>,
    nonce: Seq<u8>,
    plain: Seq<Seq<u8>>,
    k: int,
) -> (defrag: FraggedView)
    requires
        arrivals.happen(),
        handshake_expects(arrivals, i, h, nonce, plain),
        0 <= k < arrivals.fragments.len(),
    ensures
        arrivals.apps[k] == arrivals.apps[0],
        forall|j: int|
            0 <= j < k ==> (#[trigger] arrivals.outs[j]).takes() && arrivals.apps[j + 1]
                == arrivals.apps[0],
        arrivals.states[k] == with_defrag(arrivals.states[0], i, defrag),
        handshake_from(arrivals.states[k].handshakes, arrivals.kid, 0) == Some(i),
        defrag.collects(nonce, plain, arrivals.came(k)) || (k == 0 && (defrag.nonce != nonce
            || defrag.empty())),
    decreases k,
{
    let states = arrivals.states;
    if k == 0 {
        assert(with_defrag(states[0], i, h.defrag).handshakes =~= states[0].handshakes);
        h.defrag
    } else {
        let was = lemma_handshake_collects(arrivals, i, h, nonce, plain, k - 1);
        lemma_came(arrivals, k - 1);
        let no = arrivals.order[k - 1];
        let f = arrivals.fragments[no];
        let count = plain.len() as int;
        assert(arrivals.comes(k - 1));
        assert(unprotected::<App>(h.b2.hk_recv, f) == plain[no]);
        law_fragments_collected(was, nonce, plain, arrivals.came(k - 1), no);
        let now = was.after(nonce, plain[no], no, count);
        assert(states[k - 1].handshakes[i] == HandshakeView { defrag: was, ..h });
        assert(states[k - 1].session_of(arrivals.kid) is None);
        assert(states[k - 1].handshake_received(
            arrivals.apps[k - 1],
            i,
            arrivals.kid,
            f,
            arrivals.times[k - 1],
            states[k],
            arrivals.apps[k],
            arrivals.outs[k - 1],
        ));
        assert(states[k].handshakes =~= with_defrag(states[0], i, now).handshakes);
        assert(states[k] == with_defrag(states[0], i, now));
        lemma_handshake_from_same(
            states[0].handshakes,
            states[k].handshakes,
            arrivals.kid,
            0,
        );
        assert(arrivals.outs[k - 1].takes());
        now
    }
}

/// However the fragments of a completion come to a responder that holds the handshake, each once,
/// the completion is processed with the last one, exactly as if it had come in one piece, and
/// nothing happens before.
pub proof fn law_completion_delivered<App: ApplicationLayer>(
    arrivals: Arrivals<App>,
    packet: PacketView,
    mtu: usize,
    i: int,
    wire: Seq<u8>,
)
    requires
        decrypts_what_it_encrypts::<App::Prp>(),
        arrivals.happen(),
        arrivals.kid != 0,
        packet.nonce == nonce_spec(PACKET_TYPE_HANDSHAKE_COMPLETION, 0),
        AES_GCM_TAG_SIZE <= packet.payload.len() <= HANDSHAKE_COMPLETION_MAX_SIZE,
        arrivals.states[0].wf(),
        0 <= i < arrivals.states[0].handshakes.len(),
        ({
            let h = arrivals.states[0].handshakes[i];
            &&& h.b2.kid_recv == arrivals.kid
            &&& h.defrag.nonce != packet.nonce || h.defrag.empty()
            &&& is_wire::<App>(arrivals.fragments, packet, Some(h.b2.hk_recv), mtu)
            &&& is_one_piece::<App>(wire, packet, Some(h.b2.hk_recv))
        }),
    ensures
        arrivals.fragments.len() <= MAX_FRAGMENTS,
        arrivals.quiet_before_last(),
        ({
            let last = arrivals.fragments.len() - 1;
            arrivals.states[0].fragment_received(
                arrivals.apps[0],
                arrivals.kid,
                arrivals.address,
                wire,
                arrivals.times[last],
                arrivals.states[last + 1],
                arrivals.apps[last + 1],
                arrivals.outs[last],
            )
        }),
{
    let count = arrivals.fragments.len() as int;
    let states = arrivals.states;
    let h = states[0].handshakes[i];
    let hk = h.b2.hk_recv;
    let nonce = packet.nonce;
    lemma_few_fragments(packet.payload.len() as int, mtu);
    lemma_handshake_from(states[0].handshakes, arrivals.kid, 0);
    assert(handshake_from(states[0].handshakes, arrivals.kid, 0) == Some(i));
    assert(!states[0].map.contains_key(states[0].handshakes[i].b2.kid_recv));
    assert(states[0].session_of(arrivals.kid) is None);
    let plain = lemma_wire_read::<App>(
        arrivals.fragments,
        packet,
        PACKET_TYPE_HANDSHAKE_COMPLETION,
        0,
        hk,
        mtu,
    );
    lemma_one_piece_read::<App>(wire, packet, PACKET_TYPE_HANDSHAKE_COMPLETION, 0, hk);
    let one = unprotected::<App>(hk, wire);
    let last = count - 1;
    lemma_came(arrivals, last);
    let no = arrivals.order[last];
    let f = arrivals.fragments[no];
    assert(arrivals.comes(last));
    assert(unprotected::<App>(hk, f) == plain[no]);
    let limit = HANDSHAKE_COMPLETION_MAX_SIZE as int;
    assert(packet_of(PACKET_TYPE_HANDSHAKE_COMPLETION, plain, limit) == Some(packet.payload));
    assert(packet_of(PACKET_TYPE_HANDSHAKE_COMPLETION, seq![one], limit) == Some(
        packet.payload,
    ));
    if count > 1 {
        assert(handshake_expects(arrivals, i, h, nonce, plain));
        let was = lemma_handshake_collects(arrivals, i, h, nonce, plain, last);
        law_fragments_collected(was, nonce, plain, arrivals.came(last), no);
        assert(states[last].handshakes[i] == HandshakeView { defrag: was, ..h });
        assert(states[last].session_of(arrivals.kid) is None);
        let kept = with_defrag(states[0], i, was.after(nonce, plain[no], no, count));
        assert(states[last].handshakes.update(
            i,
            HandshakeView { defrag: was.after(nonce, plain[no], no, count), ..h },
        ) =~= kept.handshakes);
        assert(kept.completion_assembled(
            arrivals.apps[0],
            i,
            arrivals.kid,
            plain,
            arrivals.times[last],
            states[count],
            arrivals.apps[count],
            arrivals.outs[last],
        ));
        assert(kept.handshakes.remove(i) =~= states[0].handshakes.remove(i));
        assert(kept.handshakes[i].b2 == h.b2);
    } else {
        assert(no == 0);
        assert(plain =~= seq![plain[0]]);
    }
    assert(states[0].completion_assembled(
        arrivals.apps[0],
        i,
        arrivals.kid,
        seq![one],
        arrivals.times[last],
        states[count],
        arrivals.apps[count],
        arrivals.outs[last],
    ));
}

/// A packet of the handshake goes out in no more fragments than can be numbered.
proof fn lemma_few_fragments(len: int, mtu: usize)
    requires
        AES_GCM_TAG_SIZE <= len <= HANDSHAKE_COMPLETION_MAX_SIZE,
    ensures
        0 < fragment_count(len, effective_mtu(mtu) - HEADER_SIZE) <= MAX_FRAGMENTS,
{
    let payload_mtu = effective_mtu(mtu) - HEADER_SIZE;
    let sum = len + payload_mtu - 1;
    let bounded = if sum > usize::MAX {
        usize::MAX as int
    } else {
        sum
    };
    assert(0 < bounded / payload_mtu <= 48) by (nonlinear_arith)
        requires
            payload_mtu <= bounded < payload_mtu + 4200,
            payload_mtu >= 112,
    ;
}

/// A completion that the application accepts, by an initiator that it knows, makes a session, with
/// its last fragment, however they come: the session is the newest one, its first key is confirmed
/// to the initiator, and the handshake is over.
pub proof fn law_completion_makes_session<App: ApplicationLayer>(
    arrivals: Arrivals<App>,
    packet: PacketView,
    mtu: usize,
    i: int,
)
    requires
        decrypts_what_it_encrypts::<App::Prp>(),
        arrivals.happen(),
        arrivals.kid != 0,
        packet.nonce == nonce_spec(PACKET_TYPE_HANDSHAKE_COMPLETION, 0),
        AES_GCM_TAG_SIZE <= packet.payload.len() <= HANDSHAKE_COMPLETION_MAX_SIZE,
        arrivals.states[0].wf(),
        0 <= i < arrivals.states[0].handshakes.len(),
        ({
            let h = arrivals.states[0].handshakes[i];
            &&& h.b2.kid_recv == arrivals.kid
            &&& h.defrag.nonce != packet.nonce || h.defrag.empty()
            &&& is_wire::<App>(arrivals.fragments, packet, Some(h.b2.hk_recv), mtu)
            &&& completion_read(h.b2, arrivals.kid, packet.payload) matches Some(completion)
                && forall|answer: (Option<(bool, App::Data)>, bool), next: App|
                #[trigger]
                arrivals.apps[0].may_accept(
                    completion.s_remote,
                    completion.identity,
                    answer,
                    next,
                ) ==> answer.0 is Some
            &&& forall|
                any: App,
                key: App::PublicKey,
                data: App::Data,
                restored: Result<RatchetStates, std::io::Error>,
                next: App,
            |
                #[trigger]
                any.may_restore_by_identity(key, data, restored, next) ==> (restored matches Ok(
                    stored,
                ) && (stored@.first == Some(h.b2.ratchet_state) || stored@.second == Some(
                    h.b2.ratchet_state,
                )))
        }),
        storage_works::<App>(),
        arrivals.apps[0].settings_spec().valid(),
        arrivals.apps[0].settings_spec().reckons_from(
            arrivals.times[arrivals.fragments.len() - 1],
        ),
    ensures
        arrivals.quiet_before_last(),
        ({
            let last = arrivals.fragments.len() - 1;
            let before = arrivals.states[0];
            let after = arrivals.states[last + 1];
            let out = arrivals.outs[last];
            &&& out.result == Ok::<ReceiveOk, ReceiveError>(
                ReceiveOk::Associated(
                    SessionHandle { index: before.sessions.len() as usize },
                    SessionEvent::NewSession,
                ),
            )
            &&& out.reply matches Some(reply)
            &&& reply@.to is None
            &&& reply@.hk_send == Some(before.handshakes[i].b2.hk_send)
            &&& nonce_type(reply@.packet.nonce) == PACKET_TYPE_KEY_CONFIRM
            &&& after.sessions.len() == before.sessions.len() + 1
            &&& after.sessions.last() matches Some(s)
            &&& s.zeta.beta is S1
            &&& s.zeta.key(false).recv.kid == Some(arrivals.kid)
            &&& after.handshakes == before.handshakes.remove(i)
            &&& forall|j: int|
                0 <= j < before.sessions.len() ==> #[trigger] after.sessions[j]
                    == before.sessions[j]
        }),
{
    let h = arrivals.states[0].handshakes[i];
    let hk = h.b2.hk_recv;
    let count = arrivals.fragments.len() as int;
    let last = count - 1;
    let before = arrivals.states[0];
    let head = choose|head: Seq<u8>|
        {
            &&& #[trigger] is_header(head, packet.kid, packet.nonce)
            &&& forall|no: int|
                0 <= no < count ==> #[trigger] arrivals.fragments[no] == wire_fragment::<App>(
                    head + packet.payload,
                    count,
                    Some(hk),
                    no,
                )
        };
    let wire = wire_fragment::<App>(head + packet.payload, 1, Some(hk), 0);
    assert(is_one_piece::<App>(wire, packet, Some(hk)));
    law_completion_delivered(arrivals, packet, mtu, i, wire);
    lemma_one_piece_read::<App>(wire, packet, PACKET_TYPE_HANDSHAKE_COMPLETION, 0, hk);
    lemma_handshake_from(before.handshakes, arrivals.kid, 0);
    assert(handshake_from(before.handshakes, arrivals.kid, 0) == Some(i));
    assert(!before.map.contains_key(before.handshakes[i].b2.kid_recv));
    assert(h.b2.wf());
    let ended = before.with_handshakes(before.handshakes.remove(i));
    assert(ended.completion_received(
        arrivals.apps[0],
        h.b2,
        arrivals.kid,
        packet.payload,
        arrivals.times[last],
        arrivals.states[count],
        arrivals.apps[count],
        arrivals.outs[last],
    ));
    let r = choose|r: Result<(Zeta<App>, Packet, bool), (ZetaError, Option<Packet>)>|
        {
            &&& #[trigger] completion_handled(
                arrivals.apps[0],
                h.b2,
                arrivals.kid,
                packet.payload,
                arrivals.times[last],
                arrivals.apps[count],
                r,
            )
            &&& match r {
                Err((e, d)) => {
                    &&& arrivals.states[count] == ended
                    &&& arrivals.outs[last].result is Err
                },
                Ok((zeta, c1, downgraded)) => {
                    &&& arrivals.states[count] == ended.with_new_session(
                        SessionView::fresh(zeta@, seq![]),
                    )
                    &&& arrivals.outs[last].result == Ok::<ReceiveOk, ReceiveError>(
                        ReceiveOk::Associated(
                            SessionHandle { index: ended.sessions.len() as usize },
                            if downgraded {
                                SessionEvent::NewDowngradedSession
                            } else {
                                SessionEvent::NewSession
                            },
                        ),
                    )
                    &&& outgoing_view(arrivals.outs[last].reply) == reply_view(
                        None,
                        Some(c1@),
                        h.b2.hk_send,
                    )
                },
            }
        };
    law_accepted_session_made(
        arrivals.apps[0],
        h.b2,
        arrivals.kid,
        packet.payload,
        arrivals.times[last],
        arrivals.apps[count],
        r,
    );
    law_session_made(
        arrivals.apps[0],
        h.b2,
        arrivals.kid,
        packet.payload,
        arrivals.times[last],
        arrivals.apps[count],
        r,
    );
    law_nonce_carries(PACKET_TYPE_KEY_CONFIRM, 0);
}

/// The packet with this nonce from this address is the one at place `p`, and no other.
spec fn only_at(entries: Seq<FragEntryView>, nonce: Seq<u8>, address: Seq<u8>, p: int) -> bool {
    &&& 0 <= p < entries.len()
    &&& entries[p].nonce == nonce && entries[p].address == address
    &&& forall|k: int|
        0 <= k < entries.len() && k != p ==> (#[trigger] entries[k]).nonce != nonce
            || entries[k].address != address
}

/// The packet that is the only one of its kind is found.
proof fn lemma_entry_found(
    entries: Seq<FragEntryView>,
    nonce: Seq<u8>,
    address: Seq<u8>,
    p: int,
    k: int,
)
    requires
        only_at(entries, nonce, address, p),
        0 <= k <= p,
    ensures
        entry_from(entries, nonce, address, k) == Some(p),
    decreases p - k,
{
    if k < p {
        assert(entries[k].nonce != nonce || entries[k].address != address);
        lemma_entry_found(entries, nonce, address, p, k + 1);
    }
}

/// A packet of which nothing has come is not found.
proof fn lemma_entry_missing(
    entries: Seq<FragEntryView>,
    nonce: Seq<u8>,
    address: Seq<u8>,
    k: int,
)
    requires
        forall|j: int|
            0 <= j < entries.len() ==> (#[trigger] entries[j]).nonce != nonce
                || entries[j].address != address,
        0 <= k,
    ensures
        entry_from(entries, nonce, address, k) is None,
    decreases entries.len() - k,
{
    if k < entries.len() {
        assert(entries[k].nonce != nonce || entries[k].address != address);
        lemma_entry_missing(entries, nonce, address, k + 1);
    }
}

/// The fragments of a packet that goes out unprotected can be read, and carry it.
proof fn lemma_plain_read<App: ApplicationLayer>(
    fragments: Seq<Seq<u8>>,
    packet: PacketView,
    packet_type: u8,
    counter: u64,
    mtu: usize,
)
    requires
        is_wire::<App>(fragments, packet, None, mtu),
        packet.nonce == nonce_spec(packet_type, counter),
        packet.payload.len() > 0,
        0 < fragments.len() <= MAX_FRAGMENTS,
    ensures
        payloads(fragments) == packet.payload,
        nonce_type(packet.nonce) == packet_type,
        nonce_counter(packet.nonce) == counter,
        forall|no: int|
            0 <= no < fragments.len() ==> fragment_header(#[trigger] fragments[no]) == Some(
                (no, fragments.len() as int, packet.nonce),
            ),
{
    let count = fragments.len() as int;
    let head = choose|head: Seq<u8>|
        {
            &&& #[trigger] is_header(head, packet.kid, packet.nonce)
            &&& forall|no: int|
                0 <= no < count ==> #[trigger] fragments[no] == wire_fragment::<App>(
                    head + packet.payload,
                    count,
                    None,
                    no,
                )
        };
    lemma_head_read::<App>(packet, head, count, packet_type, counter);
    let whole = head + packet.payload;
    assert(fragments =~= Seq::new(count as nat, |no: int| fragment_of(whole, count, no)));
}

/// The fragments that a packet with this header is cut into can be read, and carry it.
proof fn lemma_head_read<App: ApplicationLayer>(
    packet: PacketView,
    head: Seq<u8>,
    count: int,
    packet_type: u8,
    counter: u64,
)
    requires
        is_header(head, packet.kid, packet.nonce),
        packet.nonce == nonce_spec(packet_type, counter),
        packet.payload.len() > 0,
        0 < count <= MAX_FRAGMENTS,
    ensures
        payloads(Seq::new(count as nat, |no: int| fragment_of(head + packet.payload, count, no)))
            == packet.payload,
        nonce_type(packet.nonce) == packet_type,
        nonce_counter(packet.nonce) == counter,
        forall|no: int|
            0 <= no < count ==> fragment_header(
                #[trigger] fragment_of(head + packet.payload, count, no),
            ) == Some((no, count, packet.nonce)),
{
    let whole = head + packet.payload;
    law_nonce_carries(packet_type, counter);
    law_fragments_carry_packet(whole, count);
    assert(whole.subrange(HEADER_SIZE as int, whole.len() as int) =~= packet.payload);
    assert(whole.subrange(PACKET_NONCE_START as int, HEADER_SIZE as int) =~= head.subrange(
        PACKET_NONCE_START as int,
        HEADER_SIZE as int,
    ));
    assert(seq![0u8, 0u8] + packet.nonce.subrange(NONCE_SIZE_DIFF as int, AES_GCM_IV_SIZE as int)
        =~= packet.nonce);
    assert forall|no: int| 0 <= no < count implies fragment_header(
        #[trigger] fragment_of(whole, count, no),
    ) == Some((no, count, packet.nonce)) by {
        law_fragment_header_read(whole, count, no);
    }
}

/// What must hold for a packet that belongs to no session to be put together.
spec fn unassociated_expects<App: ApplicationLayer>(
    arrivals: Arrivals<App>,
    nonce: Seq<u8>,
) -> bool {
    &&& arrivals.kid == 0
    &&& 1 < arrivals.fragments.len()
    &&& nonce_type(nonce) == PACKET_TYPE_HANDSHAKE_HELLO
    &&& forall|j: int|
        0 <= j < arrivals.states[0].fragments.len() ==> (
        #[trigger] arrivals.states[0].fragments[j]).nonce != nonce
            || arrivals.states[0].fragments[j].address != arrivals.address
    &&& forall|no: int|
        0 <= no < arrivals.fragments.len() ==> fragment_header(
            #[trigger] arrivals.fragments[no],
        ) == Some((no, arrivals.fragments.len() as int, nonce))
}

/// The context once the fragments before place `k` of the order have come: it collects them, and is
/// otherwise as it was.
proof fn lemma_unassociated_collects<App: ApplicationLayer>(
    arrivals: Arrivals<App>,
    nonce: Seq<u8>,
    k: int,
)
    requires
        arrivals.happen(),
        unassociated_expects(arrivals, nonce),
        0 <= k < arrivals.fragments.len(),
    ensures
        arrivals.apps[k] == arrivals.apps[0],
        forall|j: int|
            0 <= j < k ==> (#[trigger] arrivals.outs[j]).takes() && arrivals.apps[j + 1]
                == arrivals.apps[0],
        arrivals.states[k] == arrivals.states[0].with_fragments(arrivals.states[k].fragments),
        if k == 0 {
            entry_from(arrivals.states[k].fragments, nonce, arrivals.address, 0) is None
        } else {
            let entries = arrivals.states[k].fragments;
            &&& entry_from(entries, nonce, arrivals.address, 0) matches Some(p)
            &&& only_at(entries, nonce, arrivals.address, p)
            &&& entries[p].fragged.collects(nonce, arrivals.fragments, arrivals.came(k))
        },
    decreases k,
{
    let states = arrivals.states;
    let address = arrivals.address;
    if k == 0 {
        lemma_entry_missing(states[0].fragments, nonce, address, 0);
    } else {
        lemma_unassociated_collects(arrivals, nonce, k - 1);
        lemma_came(arrivals, k - 1);
        let no = arrivals.order[k - 1];
        let f = arrivals.fragments[no];
        let count = arrivals.fragments.len() as int;
        assert(arrivals.comes(k - 1));
        assert(fragment_header(f) == Some((no, count, nonce)));
        let entries = states[k - 1].fragments;
        let before = fragments_of(entries, nonce, address);
        law_fragments_collected(before, nonce, arrivals.fragments, arrivals.came(k - 1), no);
        assert(!before.completes(nonce, no, count));
        assert(arrivals.outs[k - 1].takes());
        let p = entry_for(entries, nonce, address);
        let now = states[k].fragments;
        assert(now[p].fragged == before.after(nonce, f, no, count));
        assert(only_at(now, nonce, address, p)) by {
            if k == 1 {
                assert forall|j: int| 0 <= j < now.len() && j != p implies (
                #[trigger] now[j]).nonce != nonce || now[j].address != address by {
                    if entries.len() >= MAX_UNASSOCIATED_PACKETS {
                        assert(now[j] == entries[j + 1]);
                        assert(states[0].fragments[j + 1].nonce != nonce
                            || states[0].fragments[j + 1].address != address);
                    } else {
                        assert(now[j] == entries[j]);
                        assert(states[0].fragments[j].nonce != nonce
                            || states[0].fragments[j].address != address);
                    }
                }
            } else {
                assert forall|j: int| 0 <= j < now.len() && j != p implies (
                #[trigger] now[j]).nonce != nonce || now[j].address != address by {
                    assert(now[j] == entries[j]);
                }
            }
        }
        lemma_entry_found(now, nonce, address, p, 0);
        assert(states[k] == states[0].with_fragments(now));
    }
}

/// However the fragments of a hello come from one address, each once, the hello is handled with the
/// last one, exactly as if it had come in one piece, and nothing happens before. Which fragments of
/// other packets the context goes on to keep is the only difference.
pub proof fn law_hello_delivered<App: ApplicationLayer>(
    arrivals: Arrivals<App>,
    packet: PacketView,
    counter: u64,
    mtu: usize,
    wire: Seq<u8>,
)
    requires
        arrivals.happen(),
        arrivals.kid == 0,
        packet.nonce == nonce_spec(PACKET_TYPE_HANDSHAKE_HELLO, counter),
        AES_GCM_TAG_SIZE <= packet.payload.len() <= HANDSHAKE_HELLO_CHALLENGE_MAX_SIZE,
        forall|j: int|
            0 <= j < arrivals.states[0].fragments.len() ==> (
            #[trigger] arrivals.states[0].fragments[j]).nonce != packet.nonce
                || arrivals.states[0].fragments[j].address != arrivals.address,
        is_wire::<App>(arrivals.fragments, packet, None, mtu),
        is_one_piece::<App>(wire, packet, None),
    ensures
        arrivals.fragments.len() <= MAX_FRAGMENTS,
        arrivals.quiet_before_last(),
        ({
            let last = arrivals.fragments.len() - 1;
            exists|kept: Seq<FragEntryView>|
                (#[trigger] arrivals.states[0].with_fragments(kept)).fragment_received(
                    arrivals.apps[0],
                    arrivals.kid,
                    arrivals.address,
                    wire,
                    arrivals.times[last],
                    arrivals.states[last + 1],
                    arrivals.apps[last + 1],
                    arrivals.outs[last],
                )
        }),
{
    let count = arrivals.fragments.len() as int;
    let states = arrivals.states;
    let nonce = packet.nonce;
    let address = arrivals.address;
    lemma_few_fragments(packet.payload.len() as int, mtu);
    lemma_plain_read::<App>(
        arrivals.fragments,
        packet,
        PACKET_TYPE_HANDSHAKE_HELLO,
        counter,
        mtu,
    );
    let head = choose|head: Seq<u8>|
        {
            &&& #[trigger] is_header(head, packet.kid, packet.nonce)
            &&& wire == wire_fragment::<App>(head + packet.payload, 1, None, 0)
        };
    lemma_head_read::<App>(packet, head, 1, PACKET_TYPE_HANDSHAKE_HELLO, counter);
    assert(seq![wire] =~= Seq::new(1, |no: int| fragment_of(head + packet.payload, 1, no)));
    let last = count - 1;
    lemma_came(arrivals, last);
    let no = arrivals.order[last];
    let f = arrivals.fragments[no];
    assert(arrivals.comes(last));
    assert(fragment_header(f) == Some((no, count, nonce)));
    let limit = HANDSHAKE_HELLO_CHALLENGE_MAX_SIZE as int;
    assert(packet_of(PACKET_TYPE_HANDSHAKE_HELLO, arrivals.fragments, limit) == Some(
        packet.payload,
    ));
    assert(packet_of(PACKET_TYPE_HANDSHAKE_HELLO, seq![wire], limit) == Some(packet.payload));
    if count > 1 {
        assert(unassociated_expects(arrivals, nonce));
        lemma_unassociated_collects(arrivals, nonce, last);
        let entries = states[last].fragments;
        let before = fragments_of(entries, nonce, address);
        law_fragments_collected(before, nonce, arrivals.fragments, arrivals.came(last), no);
        let kept = cache_after(
            entries,
            nonce,
            address,
            (arrivals.times[last] + arrivals.apps[last].settings_spec().fragment_assembly_timeout) as i64,
            f,
            no,
            count,
        );
        let as_if = states[0].with_fragments(kept);
        assert(states[last].with_fragments(kept) == as_if);
        assert(as_if.unassociated_assembled(
            arrivals.apps[0],
            address,
            nonce,
            seq![wire],
            arrivals.times[last],
            states[count],
            arrivals.apps[count],
            arrivals.outs[last],
        ));
        assert(as_if.fragment_received(
            arrivals.apps[0],
            arrivals.kid,
            address,
            wire,
            arrivals.times[last],
            states[count],
            arrivals.apps[count],
            arrivals.outs[last],
        ));
    } else {
        assert(no == 0);
        assert(arrivals.fragments =~= seq![f]);
        let as_if = states[0].with_fragments(states[0].fragments);
        assert(as_if == states[0]);
        assert(as_if.unassociated_assembled(
            arrivals.apps[0],
            address,
            nonce,
            seq![wire],
            arrivals.times[last],
            states[count],
            arrivals.apps[count],
            arrivals.outs[last],
        ));
    }
}

/// A packet in one piece reaches the session that has its id, and is processed there, where the
/// session looks at its type and its counter: what came of it at the session is what comes of it at
/// the context. So a packet of any type goes on from the wire to what handles it.
pub proof fn law_session_packet_reaches<App: ApplicationLayer>(
    before: ContextView<App>,
    app: App,
    kid: u32,
    i: usize,
    address: Seq<u8>,
    wire: Seq<u8>,
    packet: PacketView,
    packet_type: u8,
    counter: u64,
    current_time: i64,
    after: ContextView<App>,
    app_after: App,
    out: Received,
)
    requires
        decrypts_what_it_encrypts::<App::Prp>(),
        kid != 0,
        before.session_of(kid) == Some(i),
        packet.nonce == nonce_spec(packet_type, counter),
        packet.payload.len() >= AES_GCM_TAG_SIZE,
        (before.sessions[i as int]->0).fragment_refused(packet_type, counter) is None,
        is_one_piece::<App>(wire, packet, Some((before.sessions[i as int]->0).zeta.hk_recv)),
        before.fragment_received(
            app,
            kid,
            address,
            wire,
            current_time,
            after,
            app_after,
            out,
        ),
    ensures
        exists|kid_new: u32, next: SessionView<App>, r: Result<Processed, ReceiveError>|
            {
                &&& kid_new != 0
                &&& !before.in_use(kid_new)
                &&& #[trigger] (before.sessions[i as int]->0).packet_processed(
                    app,
                    before.s_secret,
                    SessionHandle { index: i },
                    kid,
                    kid_new,
                    packet.nonce,
                    packet.payload,
                    current_time,
                    next,
                    app_after,
                    r,
                )
                &&& match r {
                    Err(e) => {
                        &&& out.result == Err::<ReceiveOk, ReceiveError>(e)
                        &&& out.reply is None
                        &&& out.data@.len() == 0
                        &&& after.session(i as int) == Some(next)
                    },
                    Ok(p) => {
                        &&& out.result == Ok::<ReceiveOk, ReceiveError>(
                            ReceiveOk::Associated(SessionHandle { index: i }, p.event),
                        )
                        &&& out.data@ == p.data@
                        &&& p.event != SessionEvent::Rejected ==> after.session(i as int) == Some(
                            next,
                        )
                        &&& p.event == SessionEvent::Rejected ==> after.session(i as int) is None
                        &&& match (p.reply, out.reply) {
                            (None, None) => true,
                            (Some(answer), Some(o)) => {
                                &&& o@.packet == answer@
                                &&& o@.to == Some(SessionHandle { index: i })
                                &&& o@.hk_send == Some(next.zeta.hk_send)
                            },
                            _ => false,
                        }
                    },
                }
            },
{
    let s = before.sessions[i as int]->0;
    let handle = SessionHandle { index: i };
    let hk = s.zeta.hk_recv;
    let nonce = packet.nonce;
    lemma_one_piece_read::<App>(wire, packet, packet_type, counter, hk);
    let one = unprotected::<App>(hk, wire);
    assert(s.fragment_taken(wire) == (
        s,
        Ok::<Option<(Seq<u8>, Seq<Seq<u8>>)>, (FaultType, bool, u32)>(
            Some((nonce, seq![one])),
        ),
    ));
    assert(packet_of(packet_type, seq![one], HANDSHAKE_RESPONSE_SIZE as int) == Some(
        packet.payload,
    ));
    assert(before.session_received(
        app,
        i,
        kid,
        wire,
        current_time,
        after,
        app_after,
        out,
    ));
    let (kid_new, next, r) = choose|
        kid_new: u32,
        next: SessionView<App>,
        r: Result<Processed, ReceiveError>,
    |
        {
            &&& kid_new != 0
            &&& !before.in_use(kid_new)
            &&& #[trigger] s.packet_processed(
                app,
                before.s_secret,
                handle,
                kid,
                kid_new,
                nonce,
                packet.payload,
                current_time,
                next,
                app_after,
                r,
            )
            &&& before.processed(i, next, r, after, out)
        };
}

/// A packet in one piece that is addressed to no session is handled as the hello or the challenge
/// that it is.
pub proof fn law_unassociated_packet_reaches<App: ApplicationLayer>(
    before: ContextView<App>,
    app: App,
    address: Seq<u8>,
    wire: Seq<u8>,
    packet: PacketView,
    packet_type: u8,
    counter: u64,
    current_time: i64,
    after: ContextView<App>,
    app_after: App,
    out: Received,
)
    requires
        packet.nonce == nonce_spec(packet_type, counter),
        packet.payload.len() > 0,
        is_one_piece::<App>(wire, packet, None),
        before.fragment_received(
            app,
            0,
            address,
            wire,
            current_time,
            after,
            app_after,
            out,
        ),
    ensures
        packet_type == PACKET_TYPE_HANDSHAKE_HELLO ==> before.hello_received(
            app,
            address,
            packet.nonce,
            packet.payload,
            current_time,
            after,
            app_after,
            out,
        ),
        packet_type == PACKET_TYPE_CHALLENGE ==> app_after == app && before.challenge_received(
            packet.payload,
            after,
            out,
        ),
        packet_type != PACKET_TYPE_HANDSHAKE_HELLO && packet_type != PACKET_TYPE_CHALLENGE
            ==> after == before && app_after == app && out.result is Err && out.reply is None,
{
    let head = choose|head: Seq<u8>|
        {
            &&& #[trigger] is_header(head, packet.kid, packet.nonce)
            &&& wire == wire_fragment::<App>(head + packet.payload, 1, None, 0)
        };
    lemma_head_read::<App>(packet, head, 1, packet_type, counter);
    assert(seq![wire] =~= Seq::new(1, |no: int| fragment_of(head + packet.payload, 1, no)));
    assert(fragment_header(wire) == Some((0int, 1int, packet.nonce)));
}

} // verus!
