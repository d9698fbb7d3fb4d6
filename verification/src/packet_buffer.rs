//! Buffers of bounded size in which packets are put together from their fragments.

use arrayvec::ArrayVec;
use vstd::prelude::*;

use crate::bytes::contents;
use crate::proto::{HANDSHAKE_COMPLETION_MAX_SIZE, HEADER_SIZE};

verus! {

/// Declares `arrayvec::ArrayVec`, a vector of bounded size.
#[verifier::external_type_specification]
#[verifier::external_body]
#[verifier::reject_recursive_types(T)]
pub struct ExArrayVec<T, const CAP: usize>(ArrayVec<T, CAP>);

/// The bytes that a buffer holds.
pub uninterp spec fn buffer_bytes(
    buffer: ArrayVec<u8, HANDSHAKE_COMPLETION_MAX_SIZE>,
) -> Seq<u8>;

/// Calls `arrayvec::ArrayVec::new`, which makes a vector that holds nothing.
#[verifier::external_body]
fn buffer_new() -> (r: ArrayVec<u8, HANDSHAKE_COMPLETION_MAX_SIZE>)
    ensures
        buffer_bytes(r) == Seq::<u8>::empty(),
{
    ArrayVec::new()
}

/// Calls `arrayvec::ArrayVec::try_extend_from_slice`, which appends all of `more` where there is
/// room for it, and else changes nothing.
#[verifier::external_body]
fn buffer_extend(buffer: &mut ArrayVec<u8, HANDSHAKE_COMPLETION_MAX_SIZE>, more: &[u8]) -> (ok: bool)
    ensures
        ok <==> buffer_bytes(*old(buffer)).len() + more@.len() <= HANDSHAKE_COMPLETION_MAX_SIZE,
        buffer_bytes(*final(buffer)) == if ok {
            buffer_bytes(*old(buffer)) + more@
        } else {
            buffer_bytes(*old(buffer))
        },
{
    buffer.try_extend_from_slice(more).is_ok()
}

/// Calls `arrayvec::ArrayVec::as_slice`, which gives what the vector holds.
#[verifier::external_body]
fn buffer_slice(buffer: &ArrayVec<u8, HANDSHAKE_COMPLETION_MAX_SIZE>) -> (r: &[u8])
    ensures
        r@ == buffer_bytes(*buffer),
{
    buffer.as_slice()
}

/// What fragments carry behind their headers, one after the other.
pub open spec fn payloads(fragments: Seq<Seq<u8>>) -> Seq<u8>
    decreases fragments.len(),
{
    if fragments.len() == 0 {
        seq![]
    } else {
        let last = fragments.last();
        payloads(fragments.drop_last()) + last.subrange(HEADER_SIZE as int, last.len() as int)
    }
}

/// What the first fragments carry is no more than what all of them do.
proof fn lemma_payloads_grow(fragments: Seq<Seq<u8>>, i: int)
    requires
        0 <= i <= fragments.len(),
        forall|k: int| 0 <= k < fragments.len() ==> (#[trigger] fragments[k]).len() >= HEADER_SIZE,
    ensures
        payloads(fragments.subrange(0, i)).len() <= payloads(fragments).len(),
    decreases fragments.len(),
{
    if i == fragments.len() {
        assert(fragments.subrange(0, i) =~= fragments);
    } else {
        let rest = fragments.drop_last();
        assert(rest.subrange(0, i) =~= fragments.subrange(0, i));
        lemma_payloads_grow(rest, i);
        assert(fragments.last().len() >= HEADER_SIZE);
    }
}

/// What `fragments` carry, in a buffer for `limit` bytes; `None` where it does not fit.
pub fn gather_bounded(fragments: &Vec<Vec<u8>>, limit: usize) -> (r: Option<Vec<u8>>)
    requires
        limit <= HANDSHAKE_COMPLETION_MAX_SIZE,
        forall|k: int| 0 <= k < fragments@.len() ==> (#[trigger] fragments@[k])@.len()
            >= HEADER_SIZE,
    ensures
        r is Some <==> payloads(contents(fragments@)).len() <= limit,
        r matches Some(packet) ==> packet@ == payloads(contents(fragments@)),
{
    let ghost all = contents(fragments@);
    let mut buffer = buffer_new();
    let mut i: usize = 0;
    assert(all.subrange(0, 0) =~= Seq::<Seq<u8>>::empty());
    while i < fragments.len()
        invariant
            limit <= HANDSHAKE_COMPLETION_MAX_SIZE,
            all == contents(fragments@),
            i <= fragments@.len(),
            forall|k: int| 0 <= k < fragments@.len() ==> (#[trigger] fragments@[k])@.len()
                >= HEADER_SIZE,
            buffer_bytes(buffer) == payloads(all.subrange(0, i as int)),
            buffer_bytes(buffer).len() <= limit,
        decreases fragments@.len() - i,
    {
        let fragment = &fragments[i];
        let more = vstd::slice::slice_subrange(fragment.as_slice(), HEADER_SIZE, fragment.len());
        let ghost next = all.subrange(0, i + 1);
        proof {
            assert(next.drop_last() =~= all.subrange(0, i as int));
            assert(next.last() == fragment@);
            lemma_payloads_grow(all, i + 1);
        }
        if more.len() > limit || buffer_slice(&buffer).len() > limit - more.len() {
            return None;
        }
        if !buffer_extend(&mut buffer, more) {
            return None;
        }
        i += 1;
    }
    assert(all.subrange(0, i as int) =~= all);
    Some(vstd::slice::slice_to_vec(buffer_slice(&buffer)))
}

/// What `fragments` carry.
pub fn gather(fragments: &Vec<Vec<u8>>) -> (r: Vec<u8>)
    requires
        forall|k: int| 0 <= k < fragments@.len() ==> (#[trigger] fragments@[k])@.len()
            >= HEADER_SIZE,
    ensures
        r@ == payloads(contents(fragments@)),
{
    let ghost all = contents(fragments@);
    let mut r: Vec<u8> = Vec::new();
    let mut i: usize = 0;
    assert(all.subrange(0, 0) =~= Seq::<Seq<u8>>::empty());
    while i < fragments.len()
        invariant
            all == contents(fragments@),
            i <= fragments@.len(),
            forall|k: int| 0 <= k < fragments@.len() ==> (#[trigger] fragments@[k])@.len()
                >= HEADER_SIZE,
            r@ == payloads(all.subrange(0, i as int)),
        decreases fragments@.len() - i,
    {
        let fragment = &fragments[i];
        let ghost next = all.subrange(0, i + 1);
        assert(next.drop_last() =~= all.subrange(0, i as int));
        assert(next.last() == fragment@);
        crate::bytes::append(
            &mut r,
            vstd::slice::slice_subrange(fragment.as_slice(), HEADER_SIZE, fragment.len()),
        );
        i += 1;
    }
    assert(all.subrange(0, i as int) =~= all);
    r
}

} // verus!
