//! Packets that are ready to be sent.

use vstd::prelude::*;

use crate::application::ApplicationLayer;
use crate::bytes::{append, contents};
use crate::proto::{HEADER_SIZE, MIN_TRANSPORT_MTU};
use crate::ratchet_state::secret_view;
use crate::result::SessionHandle;
use crate::secret::Secret;
use crate::wire::{
    fragment_count, fragment_size, header, is_header, law_fragments_adjoin, law_fragments_fit,
    send_with_fragmentation, wire_fragment,
};
use crate::zeta::{Packet, PacketView};

verus! {

/// A packet to send: the session whose peer it is for, if there is one, the packet, and the key
/// that its headers are protected with.
pub struct Outgoing {
    pub to: Option<SessionHandle>,
    pub packet: Packet,
    pub hk_send: Option<Secret>,
}

/// A packet to send.
pub struct OutgoingView {
    pub to: Option<SessionHandle>,
    pub packet: PacketView,
    pub hk_send: Option<Seq<u8>>,
}

impl View for Outgoing {
    type V = OutgoingView;

    open spec fn view(&self) -> OutgoingView {
        OutgoingView {
            to: self.to,
            packet: self.packet@,
            hk_send: secret_view(self.hk_send),
        }
    }
}

/// What an optional packet to send holds.
pub open spec fn outgoing_view(o: Option<Outgoing>) -> Option<OutgoingView> {
    match o {
        Some(o) => Some(o@),
        None => None,
    }
}

/// The MTU that is used where `mtu` was asked for.
pub open spec fn effective_mtu(mtu: usize) -> usize {
    if mtu < MIN_TRANSPORT_MTU {
        MIN_TRANSPORT_MTU
    } else {
        mtu
    }
}

/// `fragments` are the fragments of a packet, in order, as they go over a path with this MTU. None
/// exceeds the MTU, where the packet with its header has a size that things in memory can have.
pub open spec fn is_wire<App: ApplicationLayer>(
    fragments: Seq<Seq<u8>>,
    packet: PacketView,
    hk_send: Option<Seq<u8>>,
    mtu: usize,
) -> bool {
    let count = fragment_count(packet.payload.len() as int, effective_mtu(mtu) - HEADER_SIZE);
    &&& fragments.len() == count
    &&& exists|head: Seq<u8>|
        {
            &&& #[trigger] is_header(head, packet.kid, packet.nonce)
            &&& forall|no: int|
                0 <= no < count ==> #[trigger] fragments[no] == wire_fragment::<App>(
                    head + packet.payload,
                    count,
                    hk_send,
                    no,
                )
        }
    &&& forall|no: int|
        0 <= no < count ==> (#[trigger] fragments[no]).len() == fragment_size(
            packet.payload.len() as int,
            count,
            no,
        )
    &&& packet.payload.len() + HEADER_SIZE <= isize::MAX ==> forall|no: int|
        0 <= no < count ==> (#[trigger] fragments[no]).len() <= effective_mtu(mtu)
}

/// The fragments of a packet are large enough for their headers to be protected.
pub proof fn lemma_fragments_protectable(payload_len: int, payload_mtu: int)
    requires
        payload_len >= 4,
        payload_mtu >= 8,
    ensures
        fragment_count(payload_len, payload_mtu) > 0 ==> payload_len / fragment_count(
            payload_len,
            payload_mtu,
        ) >= 4,
{
    let count = fragment_count(payload_len, payload_mtu);
    let sum = payload_len + payload_mtu - 1;
    let bounded = if sum > usize::MAX {
        usize::MAX as int
    } else {
        sum
    };
    if count > 0 {
        assert(count * payload_mtu <= sum) by (nonlinear_arith)
            requires
                count == bounded / payload_mtu,
                bounded <= sum,
                bounded >= 0,
                payload_mtu >= 8,
        ;
        assert(payload_len >= 4 * count) by (nonlinear_arith)
            requires
                count * payload_mtu <= payload_len + payload_mtu - 1,
                count > 0,
                payload_len >= 4,
                payload_mtu >= 8,
        ;
        assert(payload_len / count >= 4) by (nonlinear_arith)
            requires
                payload_len >= 4 * count,
                count > 0,
        ;
    }
}

impl Outgoing {
    /// The fragments to send, in order, over a path with this MTU.
    pub fn fragments<App: ApplicationLayer>(&self, mtu: usize) -> (r: Vec<Vec<u8>>)
        requires
            self@.packet.sized(),
        ensures
            is_wire::<App>(contents(r@), self@.packet, self@.hk_send, mtu),
    {
        let mtu: usize = if mtu < MIN_TRANSPORT_MTU {
            MIN_TRANSPORT_MTU
        } else {
            mtu
        };
        let mut headered_packet = header(self.packet.0, &self.packet.1);
        let ghost head = headered_packet@;
        append(&mut headered_packet, self.packet.2.as_slice());
        proof {
            let payload_len = headered_packet@.len() - HEADER_SIZE;
            lemma_fragments_protectable(payload_len, mtu - HEADER_SIZE);
            assert(fragment_count(payload_len, mtu - HEADER_SIZE) > 0) by (nonlinear_arith)
                requires
                    payload_len >= 16,
                    mtu - HEADER_SIZE >= 112,
                    mtu <= usize::MAX,
            ;
            assert(is_header(head, self@.packet.kid, self@.packet.nonce));
        }
        let r = match &self.hk_send {
            Some(hk) => send_with_fragmentation::<App>(mtu, &headered_packet, Some(hk)),
            None => send_with_fragmentation::<App>(mtu, &headered_packet, None),
        };
        proof {
            let payload_len = self@.packet.payload.len() as int;
            let count = fragment_count(payload_len, mtu - HEADER_SIZE);
            if payload_len + HEADER_SIZE <= isize::MAX {
                assert forall|no: int| 0 <= no < count implies (#[trigger] contents(r@)[no]).len()
                    <= mtu by {
                    assert(r@[no]@.len() == fragment_size(payload_len, count, no));
                    if payload_len > mtu - HEADER_SIZE {
                        law_fragments_fit(payload_len, mtu - HEADER_SIZE, no);
                    } else {
                        law_fragments_adjoin(payload_len, count, no);
                        law_fragments_adjoin(payload_len, count, 0);
                    }
                }
            }
        }
        r
    }
}

} // verus!
