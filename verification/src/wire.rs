//! What goes over the wire: headers, their protection, and the fragmentation of packets.

use vstd::prelude::*;

use crate::application::ApplicationLayer;
use crate::bytes::{append, array_at, part};
use crate::crypto::Aes256Prp;
use crate::proto::{
    lemma_u64_be_roundtrip, u32_be, u32_to_ne_bytes, u64_be, u64_from_be_bytes, u64_of_be,
    AES_BLOCK_SIZE, AES_GCM_IV_SIZE, FRAGMENT_COUNT_IDX, FRAGMENT_NO_IDX, HEADER_AUTH_END,
    HEADER_AUTH_START, HEADER_SIZE, KID_SIZE, MAX_FRAGMENTS, NONCE_SIZE_DIFF, PACKET_NONCE_START,
};
use crate::result::{
    fault, is_fault, FaultType, ReceiveError, SessionHandle, FAULT_FRAGMENT_HEADER,
};
use crate::secret::Secret;
use crate::zeta::nonce_spec;

verus! {

/// The packet type that a nonce carries.
pub open spec fn nonce_type(n: Seq<u8>) -> u8 {
    n[3]
}

/// The counter that a nonce carries.
pub open spec fn nonce_counter(n: Seq<u8>) -> u64 {
    u64_of_be(n.subrange(4, AES_GCM_IV_SIZE as int))
}

/// A nonce carries the packet type and the counter that it was made from.
pub proof fn law_nonce_carries(packet_type: u8, counter: u64)
    ensures
        nonce_type(nonce_spec(packet_type, counter)) == packet_type,
        nonce_counter(nonce_spec(packet_type, counter)) == counter,
{
    assert(nonce_spec(packet_type, counter).subrange(4, AES_GCM_IV_SIZE as int) =~= u64_be(
        counter,
    ));
    lemma_u64_be_roundtrip(counter);
}

/// The packet type and the counter that a nonce carries.
pub fn from_nonce(n: &[u8; AES_GCM_IV_SIZE]) -> (r: (u8, u64))
    ensures
        r == (nonce_type(n@), nonce_counter(n@)),
{
    (n[3], u64_from_be_bytes(vstd::slice::slice_subrange(n.as_slice(), 4, AES_GCM_IV_SIZE)))
}

/// The fragment number, the fragment count and the nonce in the header of a fragment, where the
/// first two make sense. The nonce travels without its leading zeros.
pub open spec fn fragment_header(fragment: Seq<u8>) -> Option<(int, int, Seq<u8>)> {
    let no = fragment[FRAGMENT_NO_IDX as int] as int;
    let count = fragment[FRAGMENT_COUNT_IDX as int] as int;
    if no >= count || count > MAX_FRAGMENTS {
        None
    } else {
        Some(
            (
                no,
                count,
                seq![0u8, 0u8] + fragment.subrange(PACKET_NONCE_START as int, HEADER_SIZE as int),
            ),
        )
    }
}

/// Reads the header of a fragment, which the sender has addressed to `session`: the fragment
/// number, the fragment count, and the nonce.
pub fn parse_fragment_header(incoming_fragment: &[u8], session: Option<SessionHandle>) -> (r: Result<
    (usize, usize, [u8; AES_GCM_IV_SIZE]),
    ReceiveError,
>)
    requires
        incoming_fragment@.len() >= HEADER_SIZE,
    ensures
        match fragment_header(incoming_fragment@) {
            None => r matches Err(e) && is_fault(
                e,
                FaultType::InvalidPacket,
                true,
                session,
                FAULT_FRAGMENT_HEADER,
            ),
            Some((no, count, nonce)) => r matches Ok((f_no, f_count, n)) && f_no == no && f_count
                == count && n@ == nonce,
        },
{
    let fragment_no: usize = incoming_fragment[FRAGMENT_NO_IDX] as usize;
    let fragment_count: usize = incoming_fragment[FRAGMENT_COUNT_IDX] as usize;
    if fragment_no >= fragment_count || fragment_count > MAX_FRAGMENTS {
        return Err(fault(FaultType::InvalidPacket, true, session, FAULT_FRAGMENT_HEADER));
    }
    let f = incoming_fragment;
    let nonce: [u8; AES_GCM_IV_SIZE] = [
        0,
        0,
        f[6],
        f[7],
        f[8],
        f[9],
        f[10],
        f[11],
        f[12],
        f[13],
        f[14],
        f[15],
    ];
    assert(nonce@ =~= seq![0u8, 0u8] + f@.subrange(
        PACKET_NONCE_START as int,
        HEADER_SIZE as int,
    ));
    Ok((fragment_no, fragment_count, nonce))
}

/// The header with the id `kid` in one of the two byte orders, no fragment number and no
/// fragment count.
pub open spec fn is_header(header: Seq<u8>, kid: u32, nonce: Seq<u8>) -> bool {
    let kid_bytes = header.subrange(0, KID_SIZE as int);
    &&& header.len() == HEADER_SIZE
    &&& kid_bytes == u32_be(kid) || kid_bytes == u32_be(kid).reverse()
    &&& header[FRAGMENT_NO_IDX as int] == 0
    &&& header[FRAGMENT_COUNT_IDX as int] == 0
    &&& header.subrange(PACKET_NONCE_START as int, HEADER_SIZE as int) == nonce.subrange(
        NONCE_SIZE_DIFF as int,
        AES_GCM_IV_SIZE as int,
    )
}

/// The header for the id `kid`: the id in the byte order of the machine, room for the fragment
/// number and the fragment count, and the nonce without its leading zeros.
pub fn header(kid: u32, nonce: &[u8; AES_GCM_IV_SIZE]) -> (r: Vec<u8>)
    ensures
        is_header(r@, kid, nonce@),
{
    let kid_bytes = u32_to_ne_bytes(kid);
    let mut r = vstd::slice::slice_to_vec(kid_bytes.as_slice());
    r.push(0);
    r.push(0);
    append(
        &mut r,
        vstd::slice::slice_subrange(nonce.as_slice(), NONCE_SIZE_DIFF, AES_GCM_IV_SIZE),
    );
    assert(r@.subrange(0, KID_SIZE as int) =~= kid_bytes@);
    assert(r@.subrange(PACKET_NONCE_START as int, HEADER_SIZE as int) =~= nonce@.subrange(
        NONCE_SIZE_DIFF as int,
        AES_GCM_IV_SIZE as int,
    ));
    r
}

/// The fragment with the protected part of its header encrypted.
pub open spec fn protected<App: ApplicationLayer>(hk: Seq<u8>, fragment: Seq<u8>) -> Seq<u8> {
    fragment.subrange(0, HEADER_AUTH_START as int) + App::Prp::block_encrypted(
        hk,
        fragment.subrange(HEADER_AUTH_START as int, HEADER_AUTH_END as int),
    ) + fragment.subrange(HEADER_AUTH_END as int, fragment.len() as int)
}

/// The fragment with the protected part of its header decrypted.
pub open spec fn unprotected<App: ApplicationLayer>(hk: Seq<u8>, fragment: Seq<u8>) -> Seq<u8> {
    fragment.subrange(0, HEADER_AUTH_START as int) + App::Prp::block_decrypted(
        hk,
        fragment.subrange(HEADER_AUTH_START as int, HEADER_AUTH_END as int),
    ) + fragment.subrange(HEADER_AUTH_END as int, fragment.len() as int)
}

/// Taking the protection off a fragment gives back what it was put on, where the cipher gives
/// back what it has encrypted.
pub proof fn law_protection_undone<App: ApplicationLayer>(hk: Seq<u8>, fragment: Seq<u8>)
    requires
        fragment.len() >= HEADER_AUTH_END,
        ({
            let block = fragment.subrange(HEADER_AUTH_START as int, HEADER_AUTH_END as int);
            let cipher = App::Prp::block_encrypted(hk, block);
            cipher.len() == AES_BLOCK_SIZE && App::Prp::block_decrypted(hk, cipher) == block
        }),
    ensures
        unprotected::<App>(hk, protected::<App>(hk, fragment)) == fragment,
{
    let f = protected::<App>(hk, fragment);
    let block = fragment.subrange(HEADER_AUTH_START as int, HEADER_AUTH_END as int);
    assert(f.subrange(HEADER_AUTH_START as int, HEADER_AUTH_END as int)
        =~= App::Prp::block_encrypted(hk, block));
    assert(f.subrange(0, HEADER_AUTH_START as int) =~= fragment.subrange(
        0,
        HEADER_AUTH_START as int,
    ));
    assert(f.subrange(HEADER_AUTH_END as int, f.len() as int) =~= fragment.subrange(
        HEADER_AUTH_END as int,
        fragment.len() as int,
    ));
    assert(unprotected::<App>(hk, f) =~= fragment);
}

/// What is protected of a fragment is the block that begins behind the id: it goes over the wire
/// encrypted with the header key, and everything else as it is.
pub proof fn law_header_protected<App: ApplicationLayer>(
    packet: Seq<u8>,
    count: int,
    hk: Seq<u8>,
    no: int,
)
    requires
        ({
            let f = fragment_of(packet, count, no);
            &&& f.len() >= HEADER_SIZE + 4
            &&& App::Prp::block_encrypted(hk, f.subrange(4, 20)).len() == 16
        }),
    ensures
        ({
            let plain = wire_fragment::<App>(packet, count, None, no);
            let wire = wire_fragment::<App>(packet, count, Some(hk), no);
            &&& wire.len() == plain.len()
            &&& wire.subrange(4, 20) == App::Prp::block_encrypted(hk, plain.subrange(4, 20))
            &&& forall|k: int|
                0 <= k < plain.len() && !(4 <= k < 20) ==> #[trigger] wire[k] == plain[k]
        }),
{
    let plain = fragment_of(packet, count, no);
    let wire = protected::<App>(hk, plain);
    assert(wire.subrange(4, 20) =~= App::Prp::block_encrypted(hk, plain.subrange(4, 20)));
}

/// Puts the protection on the header of a fragment.
fn protect<App: ApplicationLayer>(hk: &Secret, fragment: Vec<u8>) -> (r: Vec<u8>)
    requires
        fragment@.len() >= HEADER_AUTH_END,
    ensures
        r@ == protected::<App>(hk@, fragment@),
        r@.len() == fragment@.len(),
{
    let mut block = array_at::<AES_BLOCK_SIZE>(fragment.as_slice(), HEADER_AUTH_START);
    App::Prp::encrypt_in_place(hk.as_ref(), &mut block);
    let mut r = part(fragment.as_slice(), 0, HEADER_AUTH_START);
    append(&mut r, block.as_slice());
    append(
        &mut r,
        vstd::slice::slice_subrange(fragment.as_slice(), HEADER_AUTH_END, fragment.len()),
    );
    r
}

/// Takes the protection off the header of a fragment.
pub fn unprotect<App: ApplicationLayer>(hk: &Secret, fragment: Vec<u8>) -> (r: Vec<u8>)
    requires
        fragment@.len() >= HEADER_AUTH_END,
    ensures
        r@ == unprotected::<App>(hk@, fragment@),
        r@.len() == fragment@.len(),
{
    let mut block = array_at::<AES_BLOCK_SIZE>(fragment.as_slice(), HEADER_AUTH_START);
    App::Prp::decrypt_in_place(hk.as_ref(), &mut block);
    let mut r = part(fragment.as_slice(), 0, HEADER_AUTH_START);
    append(&mut r, block.as_slice());
    append(
        &mut r,
        vstd::slice::slice_subrange(fragment.as_slice(), HEADER_AUTH_END, fragment.len()),
    );
    r
}

/// The number of fragments that a payload takes: as few as the size of a fragment allows.
pub open spec fn fragment_count(payload_len: int, payload_mtu: int) -> int {
    let sum = payload_len + payload_mtu - 1;
    (if sum > usize::MAX {
        usize::MAX as int
    } else {
        sum
    }) / payload_mtu
}

/// Where fragment `no` starts in the payload. The fragments are as equal in size as can be, the
/// larger ones first.
pub open spec fn fragment_start(payload_len: int, count: int, no: int) -> int {
    let remainder = payload_len % count;
    no * (payload_len / count) + if no < remainder {
        no
    } else {
        remainder
    }
}

/// The size of fragment `no`, its header included.
pub open spec fn fragment_size(payload_len: int, count: int, no: int) -> int {
    HEADER_SIZE + fragment_start(payload_len, count, no + 1) - fragment_start(
        payload_len,
        count,
        no,
    )
}

/// Fragment `no` of a packet that goes out in `count` fragments, before its header is protected.
pub open spec fn fragment_of(packet: Seq<u8>, count: int, no: int) -> Seq<u8> {
    let len = packet.len() - HEADER_SIZE;
    packet.subrange(0, HEADER_SIZE as int).update(
        FRAGMENT_COUNT_IDX as int,
        count as u8,
    ).update(FRAGMENT_NO_IDX as int, no as u8) + packet.subrange(
        HEADER_SIZE + fragment_start(len, count, no),
        HEADER_SIZE + fragment_start(len, count, no + 1),
    )
}

/// A fragment as it goes over the wire.
pub open spec fn wire_fragment<App: ApplicationLayer>(
    packet: Seq<u8>,
    count: int,
    hk: Option<Seq<u8>>,
    no: int,
) -> Seq<u8> {
    match hk {
        None => fragment_of(packet, count, no),
        Some(hk) => protected::<App>(hk, fragment_of(packet, count, no)),
    }
}

/// Each fragment starts where the one before it ends, and the last one ends with the payload.
pub proof fn law_fragments_adjoin(payload_len: int, count: int, no: int)
    requires
        payload_len >= 0,
        0 <= no < count,
    ensures
        fragment_start(payload_len, count, 0) == 0,
        fragment_start(payload_len, count, count) == payload_len,
        fragment_start(payload_len, count, no + 1) == fragment_start(payload_len, count, no)
            + payload_len / count + if no < payload_len % count {
            1int
        } else {
            0
        },
        0 <= fragment_start(payload_len, count, no) <= fragment_start(
            payload_len,
            count,
            no + 1,
        ) <= payload_len,
{
    let base = payload_len / count;
    let remainder = payload_len % count;
    assert(payload_len == count * base + remainder && 0 <= remainder < count && base >= 0)
        by (nonlinear_arith)
        requires
            payload_len >= 0,
            count > 0,
            base == payload_len / count,
            remainder == payload_len % count,
    ;
    assert((no + 1) * base == no * base + base && no * base >= 0 && (no + 1) * base <= count * base)
        by (nonlinear_arith)
        requires
            0 <= no < count,
            base >= 0,
    ;
    assert(0 * base == 0) by (nonlinear_arith);
}

/// No fragment is larger than the size that the fragments were made for, and none is smaller
/// than the others by more than one byte.
pub proof fn law_fragments_fit(payload_len: int, payload_mtu: int, no: int)
    requires
        0 < payload_len,
        payload_mtu > 0,
        payload_len + payload_mtu - 1 <= usize::MAX,
        0 <= no < fragment_count(payload_len, payload_mtu),
    ensures
        ({
            let count = fragment_count(payload_len, payload_mtu);
            let size = fragment_start(payload_len, count, no + 1) - fragment_start(
                payload_len,
                count,
                no,
            );
            payload_len / count <= size <= payload_mtu && size <= payload_len / count + 1
        }),
{
    let count = fragment_count(payload_len, payload_mtu);
    law_fragments_adjoin(payload_len, count, no);
    let base = payload_len / count;
    let remainder = payload_len % count;
    assert(base + (if remainder > 0 {
        1int
    } else {
        0
    }) <= payload_mtu) by (nonlinear_arith)
        requires
            payload_len > 0,
            payload_mtu > 0,
            count > 0,
            count == (payload_len + payload_mtu - 1) / payload_mtu,
            base == payload_len / count,
            remainder == payload_len % count,
    ;
}

/// A packet of one fragment or more is cut into fragments whose headers read back as the number
/// of the fragment, the number of fragments and the nonce of the packet.
pub proof fn law_fragment_header_read(packet: Seq<u8>, count: int, no: int)
    requires
        packet.len() > HEADER_SIZE,
        0 <= no < count <= MAX_FRAGMENTS,
    ensures
        fragment_header(fragment_of(packet, count, no)) == Some(
            (
                no,
                count,
                seq![0u8, 0u8] + packet.subrange(PACKET_NONCE_START as int, HEADER_SIZE as int),
            ),
        ),
{
    law_fragments_adjoin(packet.len() - HEADER_SIZE, count, no);
    let f = fragment_of(packet, count, no);
    assert(f.subrange(PACKET_NONCE_START as int, HEADER_SIZE as int) =~= packet.subrange(
        PACKET_NONCE_START as int,
        HEADER_SIZE as int,
    ));
}

/// The number of fragments that a payload takes.
pub fn count_fragments(payload_len: usize, payload_mtu: usize) -> (r: usize)
    requires
        payload_mtu > 0,
    ensures
        r == fragment_count(payload_len as int, payload_mtu as int),
        payload_len > 0 ==> r > 0,
{
    // Ceiling div.
    let sum: usize = if payload_len > usize::MAX - (payload_mtu - 1) {
        usize::MAX
    } else {
        payload_len + (payload_mtu - 1)
    };
    let r: usize = sum / payload_mtu;
    assert(payload_len > 0 ==> r > 0) by (nonlinear_arith)
        requires
            payload_mtu > 0,
            r == sum / payload_mtu,
            payload_len > 0 ==> sum >= payload_mtu,
    ;
    r
}

/// Cuts a packet, whose header has no fragment count yet, into the fragments to send. The
/// headers are protected with `hk_send`, where there is one.
pub fn send_with_fragmentation<App: ApplicationLayer>(
    mtu: usize,
    headered_packet: &Vec<u8>,
    hk_send: Option<&Secret>,
) -> (r: Vec<Vec<u8>>)
    requires
        headered_packet@.len() > HEADER_SIZE,
        mtu >= HEADER_SIZE + 4,
        hk_send is Some ==> (headered_packet@.len() - HEADER_SIZE) / fragment_count(
            headered_packet@.len() - HEADER_SIZE,
            mtu - HEADER_SIZE,
        ) >= HEADER_AUTH_END - HEADER_SIZE,
    ensures
        ({
            let count = fragment_count(headered_packet@.len() - HEADER_SIZE, mtu - HEADER_SIZE);
            let hk = match hk_send {
                Some(hk) => Some(hk@),
                None => None,
            };
            &&& r@.len() == count
            &&& forall|no: int|
                0 <= no < count ==> (#[trigger] r@[no])@ == wire_fragment::<App>(
                    headered_packet@,
                    count,
                    hk,
                    no,
                )
            &&& forall|no: int|
                0 <= no < count ==> (#[trigger] r@[no])@.len() == fragment_size(
                    headered_packet@.len() - HEADER_SIZE,
                    count,
                    no,
                )
        }),
{
    let len: usize = headered_packet.len();
    let payload_len: usize = len - HEADER_SIZE;
    let payload_mtu: usize = mtu - HEADER_SIZE;
    let fragment_count: usize = count_fragments(payload_len, payload_mtu);
    let fragment_base_size: usize = payload_len / fragment_count;
    let fragment_size_remainder: usize = payload_len % fragment_count;
    let ghost hk = match hk_send {
        Some(hk) => Some(hk@),
        None => None,
    };

    let mut header = part(headered_packet.as_slice(), 0, HEADER_SIZE);
    header.set(FRAGMENT_COUNT_IDX, #[verifier::truncate] (fragment_count as u8));
    let ghost packet = headered_packet@;

    let mut fragments: Vec<Vec<u8>> = Vec::new();
    let mut i: usize = HEADER_SIZE;
    let mut fragment_no: usize = 0;
    while fragment_no < fragment_count
        invariant
            packet == headered_packet@,
            packet.len() == HEADER_SIZE + payload_len == len,
            fragment_no <= fragment_count,
            fragment_count > 0,
            fragment_base_size == payload_len as int / fragment_count as int,
            fragment_size_remainder == payload_len as int % fragment_count as int,
            hk_send is Some ==> fragment_base_size >= HEADER_AUTH_END - HEADER_SIZE,
            hk == (match hk_send {
                Some(hk) => Some(hk@),
                None => None,
            }),
            header@ == packet.subrange(0, HEADER_SIZE as int).update(
                FRAGMENT_COUNT_IDX as int,
                fragment_count as u8,
            ),
            i == HEADER_SIZE + fragment_start(
                payload_len as int,
                fragment_count as int,
                fragment_no as int,
            ),
            fragments@.len() == fragment_no,
            forall|no: int|
                0 <= no < fragment_no ==> (#[trigger] fragments@[no])@ == wire_fragment::<App>(
                    packet,
                    fragment_count as int,
                    hk,
                    no,
                ),
            forall|no: int|
                0 <= no < fragment_no ==> (#[trigger] fragments@[no])@.len() == fragment_size(
                    payload_len as int,
                    fragment_count as int,
                    no,
                ),
        decreases fragment_count - fragment_no,
    {
        proof {
            law_fragments_adjoin(payload_len as int, fragment_count as int, fragment_no as int);
        }
        let extra: usize = if fragment_no < fragment_size_remainder {
            1
        } else {
            0
        };
        let j: usize = i + fragment_base_size + extra;
        let mut fragment = part(header.as_slice(), 0, HEADER_SIZE);
        fragment.set(FRAGMENT_NO_IDX, #[verifier::truncate] (fragment_no as u8));
        append(&mut fragment, vstd::slice::slice_subrange(headered_packet.as_slice(), i, j));
        assert(fragment@ =~= fragment_of(packet, fragment_count as int, fragment_no as int));
        if let Some(hk_send) = hk_send {
            fragment = protect::<App>(hk_send, fragment);
        }
        fragments.push(fragment);
        i = j;
        fragment_no += 1;
    }
    fragments
}

} // verus!
