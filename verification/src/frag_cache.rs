//! Fragments of packets that belong to no session.

use vstd::prelude::*;

use crate::bytes::{contents, part, same};
use crate::expiry::{alive, drop_expired, law_alive_entries, views, Expires};
use crate::fragged::{no_fragments, Fragged, FraggedView};
use crate::proto::{AES_GCM_IV_SIZE, HEADER_SIZE, MAX_UNASSOCIATED_PACKETS};

verus! {

/// A packet that is being put together.
pub struct FragEntry {
    nonce: [u8; AES_GCM_IV_SIZE],
    address: Vec<u8>,
    expiry: i64,
    fragged: Fragged,
}

/// A packet that is being put together: its nonce, the address that its fragments come from, the
/// time after which it is dropped, and the fragments that have come.
pub struct FragEntryView {
    pub nonce: Seq<u8>,
    pub address: Seq<u8>,
    pub expiry: i64,
    pub fragged: FraggedView,
}

impl View for FragEntry {
    type V = FragEntryView;

    closed spec fn view(&self) -> FragEntryView {
        FragEntryView {
            nonce: self.nonce@,
            address: self.address@,
            expiry: self.expiry,
            fragged: self.fragged@,
        }
    }
}

impl Expires for FragEntry {
    open spec fn expires(entry: FragEntryView) -> i64 {
        entry.expiry
    }

    fn expiry(&self) -> (r: i64) {
        self.expiry
    }
}

/// The packets that are being put together, the oldest first.
pub struct UnassociatedFragCache {
    entries: Vec<FragEntry>,
}

impl View for UnassociatedFragCache {
    type V = Seq<FragEntryView>;

    closed spec fn view(&self) -> Seq<FragEntryView> {
        views(self.entries@)
    }
}

/// The place of the packet with this nonce from this address, from place `i` on.
pub open spec fn entry_from(
    entries: Seq<FragEntryView>,
    nonce: Seq<u8>,
    address: Seq<u8>,
    i: int,
) -> Option<int>
    decreases entries.len() - i,
{
    if i < 0 || i >= entries.len() {
        None
    } else if entries[i].nonce == nonce && entries[i].address == address {
        Some(i)
    } else {
        entry_from(entries, nonce, address, i + 1)
    }
}

/// The packets once there is a place for the one with this nonce from this address: the last
/// place, where it had none. If too many packets are being put together the oldest one is
/// dropped.
pub open spec fn with_entry(
    entries: Seq<FragEntryView>,
    nonce: Seq<u8>,
    address: Seq<u8>,
    expiry: i64,
) -> Seq<FragEntryView> {
    if entry_from(entries, nonce, address, 0) is Some {
        entries
    } else {
        (if entries.len() >= MAX_UNASSOCIATED_PACKETS {
            entries.remove(0)
        } else {
            entries
        }).push(FragEntryView { nonce, address, expiry, fragged: no_fragments() })
    }
}

/// The place that a fragment with this nonce from this address goes to.
pub open spec fn entry_for(entries: Seq<FragEntryView>, nonce: Seq<u8>, address: Seq<u8>) -> int {
    match entry_from(entries, nonce, address, 0) {
        Some(i) => i,
        None => if entries.len() >= MAX_UNASSOCIATED_PACKETS {
            entries.len() - 1
        } else {
            entries.len() as int
        },
    }
}

/// The fragments that have come of the packet with this nonce from this address.
pub open spec fn fragments_of(entries: Seq<FragEntryView>, nonce: Seq<u8>, address: Seq<u8>) -> FraggedView {
    match entry_from(entries, nonce, address, 0) {
        Some(i) => entries[i].fragged,
        None => no_fragments(),
    }
}

/// The packets after a fragment has come. A packet that it completes is no longer kept.
pub open spec fn cache_after(
    entries: Seq<FragEntryView>,
    nonce: Seq<u8>,
    address: Seq<u8>,
    expiry: i64,
    fragment: Seq<u8>,
    no: int,
    count: int,
) -> Seq<FragEntryView> {
    let there = with_entry(entries, nonce, address, expiry);
    let i = entry_for(entries, nonce, address);
    let before = fragments_of(entries, nonce, address);
    if before.completes(nonce, no, count) {
        there.remove(i)
    } else {
        there.update(
            i,
            FragEntryView {
                fragged: before.after(nonce, fragment, no, count),
                ..there[i]
            },
        )
    }
}

/// Every fragment that is kept has a header.
pub open spec fn cache_sound(entries: Seq<FragEntryView>) -> bool {
    forall|i: int| 0 <= i < entries.len() ==> (#[trigger] entries[i]).fragged.sound()
}

/// The place of a packet, if there is one, is one of the places.
proof fn lemma_entry_from(entries: Seq<FragEntryView>, nonce: Seq<u8>, address: Seq<u8>, i: int)
    requires
        0 <= i,
    ensures
        entry_from(entries, nonce, address, i) matches Some(k) ==> i <= k < entries.len()
            && entries[k].nonce == nonce && entries[k].address == address,
    decreases entries.len() - i,
{
    if i < entries.len() {
        lemma_entry_from(entries, nonce, address, i + 1);
    }
}

/// A fragment of one packet leaves the fragments of the others alone, except that the oldest packet
/// makes room where there are too many. A packet whose first fragment comes is kept until its time
/// has come.
pub proof fn law_other_packets_kept(
    entries: Seq<FragEntryView>,
    nonce: Seq<u8>,
    address: Seq<u8>,
    expiry: i64,
    fragment: Seq<u8>,
    no: int,
    count: int,
    j: int,
)
    requires
        0 <= no < count,
        0 <= j < entries.len(),
        entries[j].nonce != nonce || entries[j].address != address,
    ensures
        ({
            let after = cache_after(entries, nonce, address, expiry, fragment, no, count);
            let known = exists|k: int|
                0 <= k < entries.len() && (#[trigger] entries[k]).nonce == nonce
                    && entries[k].address == address;
            &&& known || entries.len() < MAX_UNASSOCIATED_PACKETS || j > 0 ==> after.contains(
                entries[j],
            )
            &&& !known && count > 1 ==> {
                &&& after.last().nonce == nonce
                &&& after.last().address == address
                &&& after.last().expiry == expiry
                &&& after.last().fragged.collects(
                    nonce,
                    Seq::new(count as nat, |k: int| fragment),
                    set![no],
                )
            }
        }),
{
    lemma_entry_from(entries, nonce, address, 0);
    let after = cache_after(entries, nonce, address, expiry, fragment, no, count);
    let there = with_entry(entries, nonce, address, expiry);
    let i = entry_for(entries, nonce, address);
    let found = entry_from(entries, nonce, address, 0);
    let before = fragments_of(entries, nonce, address);
    let place = if found is None && entries.len() >= MAX_UNASSOCIATED_PACKETS {
        j - 1
    } else {
        j
    };
    if found is None {
        lemma_entry_missing(entries, nonce, address, 0);
    } else {
        assert(entries[found->0].nonce == nonce);
    }
    if place >= 0 {
        assert(there[place] == entries[j]);
        assert(place != i);
        if before.completes(nonce, no, count) {
            if place < i {
                assert(after[place] == entries[j]);
            } else {
                assert(after[place - 1] == entries[j]);
            }
        } else {
            assert(after[place] == entries[j]);
        }
    }
    if found is None && count > 1 {
        let other: int = if no == 0 {
            1
        } else {
            0
        };
        assert(before.places(nonce, count)[other] is None);
        assert(!before.completes(nonce, no, count));
        assert(i == there.len() - 1);
    }
}

/// Where a packet has no place, none of the packets is it.
proof fn lemma_entry_missing(
    entries: Seq<FragEntryView>,
    nonce: Seq<u8>,
    address: Seq<u8>,
    i: int,
)
    requires
        0 <= i,
        entry_from(entries, nonce, address, i) is None,
    ensures
        forall|k: int|
            i <= k < entries.len() ==> (#[trigger] entries[k]).nonce != nonce
                || entries[k].address != address,
    decreases entries.len() - i,
{
    if i < entries.len() {
        lemma_entry_missing(entries, nonce, address, i + 1);
    }
}

/// What is left when some packets are dropped is sound.
pub proof fn lemma_alive_cache_sound(entries: Seq<FragEntryView>, current_time: i64)
    requires
        cache_sound(entries),
    ensures
        cache_sound(alive::<FragEntry>(entries, current_time)),
{
    let left = alive::<FragEntry>(entries, current_time);
    assert forall|i: int| 0 <= i < left.len() implies (#[trigger] left[i]).fragged.sound() by {
        law_alive_entries::<FragEntry>(entries, current_time, i);
    }
}

impl UnassociatedFragCache {
    /// No packet is being put together.
    pub fn new() -> (r: UnassociatedFragCache)
        ensures
            r@ == Seq::<FragEntryView>::empty(),
    {
        let r = UnassociatedFragCache { entries: Vec::new() };
        assert(r@ =~= Seq::<FragEntryView>::empty());
        r
    }

    /// The place of the packet with this nonce from this address.
    fn find(&self, nonce: &[u8; AES_GCM_IV_SIZE], address: &[u8]) -> (r: Option<usize>)
        ensures
            match entry_from(self@, nonce@, address@, 0) {
                Some(i) => r matches Some(k) && k == i && k < self@.len(),
                None => r is None,
            },
    {
        proof {
            lemma_entry_from(self@, nonce@, address@, 0);
        }
        let mut i: usize = 0;
        while i < self.entries.len()
            invariant
                i <= self.entries@.len(),
                entry_from(self@, nonce@, address@, 0) == entry_from(
                    self@,
                    nonce@,
                    address@,
                    i as int,
                ),
                self@.len() == self.entries@.len(),
            decreases self.entries@.len() - i,
        {
            assert(self@[i as int] == self.entries@[i as int]@);
            if same(self.entries[i].nonce.as_slice(), nonce.as_slice()) && same(
                self.entries[i].address.as_slice(),
                address,
            ) {
                return Some(i);
            }
            i += 1;
        }
        None
    }

    /// Takes the fragment `no` of `count` of the packet with this nonce, which came from this
    /// address. Where it was the last one missing, all of them come out.
    pub fn assemble(
        &mut self,
        nonce: &[u8; AES_GCM_IV_SIZE],
        address: &[u8],
        fragment: Vec<u8>,
        no: usize,
        count: usize,
        expiry: i64,
    ) -> (r: Option<Vec<Vec<u8>>>)
        requires
            no < count,
            cache_sound(old(self)@),
            fragment@.len() >= HEADER_SIZE,
        ensures
            final(self)@ == cache_after(
                old(self)@,
                nonce@,
                address@,
                expiry,
                fragment@,
                no as int,
                count as int,
            ),
            ({
                let before = fragments_of(old(self)@, nonce@, address@);
                &&& r is Some <==> before.completes(nonce@, no as int, count as int)
                &&& r matches Some(fragments) ==> contents(fragments@) == before.assembled(
                    nonce@,
                    fragment@,
                    no as int,
                    count as int,
                )
            }),
            r matches Some(fragments) ==> forall|k: int|
                0 <= k < fragments@.len() ==> (#[trigger] fragments@[k])@.len() >= HEADER_SIZE,
            cache_sound(final(self)@),
    {
        let ghost all = self@;
        let ghost stored = fragment@;
        let ghost there = with_entry(all, nonce@, address@, expiry);
        let ghost before = fragments_of(all, nonce@, address@);
        let ghost place = entry_for(all, nonce@, address@);
        let found = self.find(nonce, address);
        let i: usize = match found {
            Some(i) => i,
            None => {
                if self.entries.len() >= MAX_UNASSOCIATED_PACKETS {
                    self.entries.remove(0);
                    assert(self@ =~= all.remove(0));
                }
                let address_copy = part(address, 0, address.len());
                assert(address_copy@ =~= address@);
                self.entries.push(
                    FragEntry {
                        nonce: *nonce,
                        address: address_copy,
                        expiry,
                        fragged: Fragged::new(),
                    },
                );
                self.entries.len() - 1
            },
        };
        assert(self@ =~= there);
        assert(i == place);
        assert(self@[i as int] == self.entries@[i as int]@);
        assert(there[i as int].fragged == before);
        assert(before.sound());
        assert(cache_sound(there)) by {
            assert forall|k: int| 0 <= k < there.len() implies (
            #[trigger] there[k]).fragged.sound() by {
                if found is None && k < there.len() - 1 {
                    if all.len() >= MAX_UNASSOCIATED_PACKETS {
                        assert(there[k] == all[k + 1]);
                        assert(all[k + 1].fragged.sound());
                    } else {
                        assert(there[k] == all[k]);
                        assert(all[k].fragged.sound());
                    }
                } else if found is Some {
                    assert(all[k].fragged.sound());
                }
            }
        }
        let r = self.entries[i].fragged.assemble(nonce, fragment, no, count);
        let ghost updated = there.update(
            i as int,
            FragEntryView {
                fragged: before.after(nonce@, stored, no as int, count as int),
                ..there[i as int]
            },
        );
        assert(self@ =~= updated);
        assert(cache_sound(updated)) by {
            assert forall|k: int| 0 <= k < updated.len() implies (
            #[trigger] updated[k]).fragged.sound() by {
                assert(there[k].fragged.sound());
                assert(updated[i as int] == self.entries@[i as int]@);
            }
        }
        if r.is_some() {
            self.entries.remove(i);
            assert(self@ =~= there.remove(i as int));
            assert forall|k: int| 0 <= k < self@.len() implies (
            #[trigger] self@[k]).fragged.sound() by {
                let j = if k < i {
                    k
                } else {
                    k + 1
                };
                assert(there[j].fragged.sound());
            }
        }
        r
    }

    /// Drops the packets that have not been completed in time.
    pub fn check_for_expiry(&mut self, current_time: i64)
        ensures
            final(self)@ == alive::<FragEntry>(old(self)@, current_time),
    {
        drop_expired(&mut self.entries, current_time);
    }
}

} // verus!
