//! Packets that are put together from fragments, which may come in any order.

use vstd::prelude::*;

use crate::bytes::{contents, same};
use crate::packet_buffer::payloads;
use crate::proto::{AES_GCM_IV_SIZE, HEADER_SIZE};
use crate::wire::{fragment_of, fragment_start, law_fragments_adjoin};

verus! {

/// The fragments of one packet that have come so far.
pub struct Fragged {
    nonce: [u8; AES_GCM_IV_SIZE],
    frags: Vec<Option<Vec<u8>>>,
}

/// The fragments of one packet that have come so far. There are as many places as the packet
/// has fragments, or none where no packet is being put together.
#[verifier::ext_equal]
pub struct FraggedView {
    pub nonce: Seq<u8>,
    pub frags: Seq<Option<Seq<u8>>>,
}

/// What a place for a fragment holds.
pub open spec fn frag_view(f: Option<Vec<u8>>) -> Option<Seq<u8>> {
    match f {
        Some(f) => Some(f@),
        None => None,
    }
}

impl View for Fragged {
    type V = FraggedView;

    closed spec fn view(&self) -> FraggedView {
        FraggedView {
            nonce: self.nonce@,
            frags: Seq::new(self.frags@.len(), |i: int| frag_view(self.frags@[i])),
        }
    }
}

/// Nothing has come yet.
pub open spec fn no_fragments() -> FraggedView {
    FraggedView { nonce: Seq::new(AES_GCM_IV_SIZE as nat, |i: int| 0u8), frags: seq![] }
}

impl FraggedView {
    /// No packet is being put together.
    pub open spec fn empty(self) -> bool {
        self.frags.len() == 0
    }

    /// Every fragment that has come has a header.
    pub open spec fn sound(self) -> bool {
        forall|i: int|
            0 <= i < self.frags.len() ==> ((#[trigger] self.frags[i]) matches Some(f) ==> f.len()
                >= HEADER_SIZE)
    }

    /// The places for the fragments of the packet with this nonce, of which there are `count`:
    /// the ones that are there, if that packet is being put together, or else new ones.
    pub open spec fn places(self, nonce: Seq<u8>, count: int) -> Seq<Option<Seq<u8>>> {
        if self.nonce == nonce && !self.empty() {
            self.frags
        } else {
            Seq::new(count as nat, |i: int| None)
        }
    }

    /// The fragment is one that is still missing from its packet.
    pub open spec fn wants(self, nonce: Seq<u8>, no: int, count: int) -> bool {
        let places = self.places(nonce, count);
        places.len() == count && places[no] is None
    }

    /// The fragments of the packet with this nonce once this one has come.
    pub open spec fn with(self, nonce: Seq<u8>, fragment: Seq<u8>, no: int, count: int) -> Seq<
        Option<Seq<u8>>,
    > {
        if self.wants(nonce, no, count) {
            self.places(nonce, count).update(no, Some(fragment))
        } else {
            self.places(nonce, count)
        }
    }

    /// The fragment is the last one that was missing from its packet.
    pub open spec fn completes(self, nonce: Seq<u8>, no: int, count: int) -> bool {
        &&& self.wants(nonce, no, count)
        &&& forall|i: int|
            0 <= i < count && i != no ==> (#[trigger] self.places(nonce, count)[i]) is Some
    }

    /// What there is after a fragment has come.
    pub open spec fn after(self, nonce: Seq<u8>, fragment: Seq<u8>, no: int, count: int) -> Self {
        FraggedView {
            nonce,
            frags: if self.completes(nonce, no, count) {
                seq![]
            } else {
                self.with(nonce, fragment, no, count)
            },
        }
    }

    /// The fragments of the packet that a fragment completes.
    pub open spec fn assembled(self, nonce: Seq<u8>, fragment: Seq<u8>, no: int, count: int) -> Seq<
        Seq<u8>,
    > {
        Seq::new(count as nat, |i: int| self.with(nonce, fragment, no, count)[i]->0)
    }

    /// Of the fragments of a packet those with the numbers in `have` have come, and no others.
    pub open spec fn collects(self, nonce: Seq<u8>, fragments: Seq<Seq<u8>>, have: Set<int>) -> bool {
        &&& self.nonce == nonce
        &&& self.frags.len() == fragments.len()
        &&& forall|i: int|
            0 <= i < fragments.len() ==> #[trigger] self.frags[i] == if have.contains(i) {
                Some(fragments[i])
            } else {
                None
            }
    }
}

/// However the fragments of a packet come, each once, none is lost: after each one what has come
/// is what was there before and this one, and with the last one all of them come out in their
/// order.
pub proof fn law_fragments_collected(
    before: FraggedView,
    nonce: Seq<u8>,
    fragments: Seq<Seq<u8>>,
    have: Set<int>,
    no: int,
)
    requires
        0 <= no < fragments.len(),
        !have.contains(no),
        before.collects(nonce, fragments, have) || (have.is_empty() && (before.nonce != nonce
            || before.empty())),
    ensures
        ({
            let count = fragments.len() as int;
            let complete = forall|i: int|
                0 <= i < count ==> #[trigger] have.insert(no).contains(i);
            &&& before.completes(nonce, no, count) <==> complete
            &&& complete ==> before.assembled(nonce, fragments[no], no, count) == fragments
            &&& !complete ==> before.after(nonce, fragments[no], no, count).collects(
                nonce,
                fragments,
                have.insert(no),
            )
        }),
{
    let count = fragments.len() as int;
    let places = before.places(nonce, count);
    assert forall|i: int| 0 <= i < count implies #[trigger] places[i] == if have.contains(i) {
        Some(fragments[i])
    } else {
        None
    } by {
        if before.collects(nonce, fragments, have) {
            assert(before.frags[i] == if have.contains(i) {
                Some(fragments[i])
            } else {
                None
            });
        } else {
            assert(!have.contains(i));
        }
    }
    assert(before.wants(nonce, no, count));
    let complete = forall|i: int| 0 <= i < count ==> #[trigger] have.insert(no).contains(i);
    if complete {
        assert forall|i: int| 0 <= i < count && i != no implies (#[trigger] places[i]) is Some by {
            assert(have.insert(no).contains(i));
        }
        assert(before.assembled(nonce, fragments[no], no, count) =~= fragments) by {
            assert forall|i: int| 0 <= i < count && i != no implies have.contains(i) by {
                assert(have.insert(no).contains(i));
            }
        }
    } else {
        let missing = choose|i: int| 0 <= i < count && !#[trigger] have.insert(no).contains(i);
        assert(places[missing] is None);
        assert(!before.completes(nonce, no, count));
    }
}

/// A fragment that has come already changes nothing when it comes again, and neither does one that
/// says that its packet has another number of fragments.
pub proof fn law_repeated_fragment_ignored(
    before: FraggedView,
    nonce: Seq<u8>,
    fragments: Seq<Seq<u8>>,
    have: Set<int>,
    fragment: Seq<u8>,
    no: int,
    count: int,
)
    requires
        before.collects(nonce, fragments, have),
        fragments.len() > 0,
        0 <= no < count,
        count != fragments.len() || have.contains(no),
    ensures
        !before.completes(nonce, no, count),
        before.after(nonce, fragment, no, count) == before,
{
    if count == fragments.len() {
        assert(before.frags[no] == Some(fragments[no]));
    }
}

/// What the fragments of a packet carry, up to fragment `n`, is what the packet carries up to
/// there.
proof fn lemma_payloads_of_fragments(packet: Seq<u8>, count: int, n: int)
    requires
        packet.len() > HEADER_SIZE,
        0 <= n <= count,
        count > 0,
    ensures
        payloads(Seq::new(n as nat, |no: int| fragment_of(packet, count, no))) == packet.subrange(
            HEADER_SIZE as int,
            HEADER_SIZE + fragment_start(packet.len() - HEADER_SIZE, count, n),
        ),
        0 <= fragment_start(packet.len() - HEADER_SIZE, count, n) <= packet.len() - HEADER_SIZE,
    decreases n,
{
    let len = packet.len() - HEADER_SIZE;
    let fragments = Seq::new(n as nat, |no: int| fragment_of(packet, count, no));
    if n == 0 {
        law_fragments_adjoin(len, count, 0);
        assert(payloads(fragments) =~= packet.subrange(HEADER_SIZE as int, HEADER_SIZE as int));
    } else {
        law_fragments_adjoin(len, count, n - 1);
        lemma_payloads_of_fragments(packet, count, n - 1);
        assert(fragments.drop_last() =~= Seq::new(
            (n - 1) as nat,
            |no: int| fragment_of(packet, count, no),
        ));
        let last = fragment_of(packet, count, n - 1);
        assert(fragments.last() == last);
        assert(last.subrange(HEADER_SIZE as int, last.len() as int) =~= packet.subrange(
            HEADER_SIZE + fragment_start(len, count, n - 1),
            HEADER_SIZE + fragment_start(len, count, n),
        ));
        assert(payloads(fragments) =~= packet.subrange(
            HEADER_SIZE as int,
            HEADER_SIZE + fragment_start(len, count, n),
        ));
    }
}

/// The fragments of a packet together carry what the packet carries.
pub proof fn law_fragments_carry_packet(packet: Seq<u8>, count: int)
    requires
        packet.len() > HEADER_SIZE,
        count > 0,
    ensures
        payloads(Seq::new(count as nat, |no: int| fragment_of(packet, count, no)))
            == packet.subrange(HEADER_SIZE as int, packet.len() as int),
{
    lemma_payloads_of_fragments(packet, count, count);
    law_fragments_adjoin(packet.len() - HEADER_SIZE, count, 0);
}

impl Fragged {
    /// No packet is being put together.
    pub fn new() -> (r: Fragged)
        ensures
            r@ == no_fragments(),
    {
        let r = Fragged { nonce: [0u8; AES_GCM_IV_SIZE], frags: Vec::new() };
        assert(r@ =~= no_fragments());
        r
    }

    /// Takes the fragment `no` of `count` of the packet with this nonce. Where it was the last
    /// one missing, all of them come out. The fragments of another packet, if one was being put
    /// together, are dropped.
    pub fn assemble(
        &mut self,
        nonce: &[u8; AES_GCM_IV_SIZE],
        fragment: Vec<u8>,
        no: usize,
        count: usize,
    ) -> (r: Option<Vec<Vec<u8>>>)
        requires
            no < count,
        ensures
            final(self)@ == old(self)@.after(nonce@, fragment@, no as int, count as int),
            r is Some <==> old(self)@.completes(nonce@, no as int, count as int),
            r matches Some(fragments) ==> contents(fragments@) == old(self)@.assembled(
                nonce@,
                fragment@,
                no as int,
                count as int,
            ),
            old(self)@.sound() && fragment@.len() >= HEADER_SIZE ==> {
                &&& final(self)@.sound()
                &&& r matches Some(fragments) ==> forall|k: int|
                    0 <= k < fragments@.len() ==> (#[trigger] fragments@[k])@.len() >= HEADER_SIZE
            },
    {
        let ghost before = self@;
        let ghost places = before.places(nonce@, count as int);
        if self.frags.len() == 0 || !same(self.nonce.as_slice(), nonce.as_slice()) {
            self.nonce = *nonce;
            let mut frags: Vec<Option<Vec<u8>>> = Vec::new();
            let mut i: usize = 0;
            while i < count
                invariant
                    i <= count,
                    frags@.len() == i,
                    forall|k: int| 0 <= k < i ==> (#[trigger] frags@[k]) is None,
                decreases count - i,
            {
                frags.push(None);
                i += 1;
            }
            self.frags = frags;
            assert(self@.frags =~= places);
        }
        assert(self@.nonce == nonce@ && self@.frags == places);
        if self.frags.len() != count || self.frags[no].is_some() {
            return None;
        }
        let ghost stored = fragment@;
        self.frags.set(no, Some(fragment));
        assert(self@.frags =~= before.with(nonce@, stored, no as int, count as int));
        if !all_there(&self.frags) {
            proof {
                let k = choose|k: int|
                    0 <= k < self.frags@.len() && (#[trigger] self.frags@[k]) is None;
                assert(self@.frags[k] == frag_view(self.frags@[k]));
                assert(places[k] is None && k != no);
            }
            return None;
        }
        assert forall|k: int| 0 <= k < count && k != no implies (#[trigger] places[k]) is Some by {
            assert(self@.frags[k] == frag_view(self.frags@[k]));
        }
        let ghost all = self@.frags;
        let mut frags: Vec<Option<Vec<u8>>> = Vec::new();
        std::mem::swap(&mut frags, &mut self.frags);
        assert(self@.frags =~= seq![]);
        assert forall|k: int| 0 <= k < count implies #[trigger] all[k] == frag_view(frags@[k]) by {
        }
        let fragments = take_all(frags);
        assert(contents(fragments@) =~= before.assembled(
            nonce@,
            stored,
            no as int,
            count as int,
        ));
        proof {
            if before.sound() && stored.len() >= HEADER_SIZE {
                assert forall|k: int| 0 <= k < fragments@.len() implies (
                #[trigger] fragments@[k])@.len() >= HEADER_SIZE by {
                    assert(contents(fragments@)[k] == fragments@[k]@);
                    assert(places[k] matches Some(f) ==> f.len() >= HEADER_SIZE);
                }
            }
        }
        Some(fragments)
    }
}

/// Says whether every fragment is there.
fn all_there(frags: &Vec<Option<Vec<u8>>>) -> (r: bool)
    ensures
        r <==> forall|k: int| 0 <= k < frags@.len() ==> (#[trigger] frags@[k]) is Some,
{
    let mut i: usize = 0;
    while i < frags.len()
        invariant
            i <= frags@.len(),
            forall|k: int| 0 <= k < i ==> (#[trigger] frags@[k]) is Some,
        decreases frags@.len() - i,
    {
        if frags[i].is_none() {
            return false;
        }
        i += 1;
    }
    true
}

/// The fragments, every one of which is there.
fn take_all(frags: Vec<Option<Vec<u8>>>) -> (r: Vec<Vec<u8>>)
    requires
        forall|k: int| 0 <= k < frags@.len() ==> (#[trigger] frags@[k]) is Some,
    ensures
        r@.len() == frags@.len(),
        forall|k: int| 0 <= k < r@.len() ==> Some(#[trigger] r@[k]) == frags@[k],
{
    let ghost all = frags@;
    let mut frags = frags;
    let mut r: Vec<Vec<u8>> = Vec::new();
    let mut i: usize = 0;
    while i < frags.len()
        invariant
            i <= frags@.len(),
            frags@.len() == all.len(),
            r@.len() == i,
            forall|k: int| 0 <= k < all.len() ==> (#[trigger] all[k]) is Some,
            forall|k: int| i <= k < frags@.len() ==> #[trigger] frags@[k] == all[k],
            forall|k: int| 0 <= k < i ==> Some(#[trigger] r@[k]) == all[k],
        decreases frags@.len() - i,
    {
        assert(all[i as int] is Some);
        assert(frags@[i as int] == all[i as int]);
        let fragment = frags[i].take().unwrap();
        r.push(fragment);
        i += 1;
    }
    r
}

} // verus!
