//! Handshakes of responders that have not been completed yet.

use vstd::prelude::*;

use crate::application::ApplicationLayer;
use crate::bytes::contents;
use crate::expiry::{alive, drop_expired, law_alive_entries, views, Expires};
use crate::fragged::{no_fragments, Fragged, FraggedView};
use crate::proto::{AES_GCM_IV_SIZE, HEADER_SIZE, MAX_UNASSOCIATED_HANDSHAKES};
use crate::zeta::hello::{StateB2, StateB2View};

verus! {

/// A responder that has answered a hello, and the fragments of the completion that have come.
pub struct Handshake<App: ApplicationLayer> {
    pub b2: StateB2<App>,
    pub defrag: Fragged,
    /// The time after which the handshake is dropped.
    pub expiry: i64,
}

/// A responder that has answered a hello.
pub struct HandshakeView<App: ApplicationLayer> {
    pub b2: StateB2View<App>,
    pub defrag: FraggedView,
    pub expiry: i64,
}

impl<App: ApplicationLayer> View for Handshake<App> {
    type V = HandshakeView<App>;

    open spec fn view(&self) -> HandshakeView<App> {
        HandshakeView { b2: self.b2@, defrag: self.defrag@, expiry: self.expiry }
    }
}

impl<App: ApplicationLayer> Expires for Handshake<App> {
    open spec fn expires(entry: HandshakeView<App>) -> i64 {
        entry.expiry
    }

    fn expiry(&self) -> (r: i64) {
        self.expiry
    }
}

/// The handshakes that have not been completed yet, the oldest first.
pub struct UnassociatedHandshakeCache<App: ApplicationLayer> {
    pub entries: Vec<Handshake<App>>,
}

impl<App: ApplicationLayer> View for UnassociatedHandshakeCache<App> {
    type V = Seq<HandshakeView<App>>;

    open spec fn view(&self) -> Seq<HandshakeView<App>> {
        views(self.entries@)
    }
}

/// The place of the handshake with the id `kid`, from place `i` on.
pub open spec fn handshake_from<App: ApplicationLayer>(
    entries: Seq<HandshakeView<App>>,
    kid: u32,
    i: int,
) -> Option<int>
    decreases entries.len() - i,
{
    if i < 0 || i >= entries.len() {
        None
    } else if entries[i].b2.kid_recv == kid {
        Some(i)
    } else {
        handshake_from(entries, kid, i + 1)
    }
}

/// The handshakes after a new one has begun. If there are too many the oldest one is dropped.
pub open spec fn handshakes_with<App: ApplicationLayer>(
    entries: Seq<HandshakeView<App>>,
    b2: StateB2View<App>,
    expiry: i64,
) -> Seq<HandshakeView<App>> {
    (if entries.len() >= MAX_UNASSOCIATED_HANDSHAKES {
        entries.remove(0)
    } else {
        entries
    }).push(HandshakeView { b2, defrag: no_fragments(), expiry })
}

/// Every handshake is well formed, and so is every fragment.
pub open spec fn handshakes_sound<App: ApplicationLayer>(
    entries: Seq<HandshakeView<App>>,
) -> bool {
    forall|i: int|
        0 <= i < entries.len() ==> (#[trigger] entries[i]).b2.wf() && entries[i].defrag.sound()
}

/// The handshake that is found is the one with the id, and where none is found there is none.
pub proof fn lemma_handshake_from<App: ApplicationLayer>(
    entries: Seq<HandshakeView<App>>,
    kid: u32,
    i: int,
)
    requires
        0 <= i,
    ensures
        match handshake_from(entries, kid, i) {
            Some(k) => i <= k < entries.len() && entries[k].b2.kid_recv == kid,
            None => forall|k: int|
                i <= k < entries.len() ==> (#[trigger] entries[k]).b2.kid_recv != kid,
        },
    decreases entries.len() - i,
{
    if i < entries.len() {
        lemma_handshake_from(entries, kid, i + 1);
    }
}

impl<App: ApplicationLayer> UnassociatedHandshakeCache<App> {
    /// No handshake has begun.
    pub fn new() -> (r: Self)
        ensures
            r@ == Seq::<HandshakeView<App>>::empty(),
    {
        let r = UnassociatedHandshakeCache { entries: Vec::new() };
        assert(r@ =~= Seq::<HandshakeView<App>>::empty());
        r
    }

    /// The place of the handshake with the id `kid`.
    pub fn find(&self, kid: u32) -> (r: Option<usize>)
        ensures
            match handshake_from(self@, kid, 0) {
                Some(i) => r matches Some(k) && k == i && k < self@.len(),
                None => r is None,
            },
    {
        proof {
            lemma_handshake_from(self@, kid, 0);
        }
        let mut i: usize = 0;
        while i < self.entries.len()
            invariant
                i <= self.entries@.len(),
                handshake_from(self@, kid, 0) == handshake_from(self@, kid, i as int),
            decreases self.entries@.len() - i,
        {
            assert(self@[i as int] == self.entries@[i as int]@);
            if self.entries[i].b2.kid_recv == kid {
                return Some(i);
            }
            i += 1;
        }
        None
    }

    /// Begins a handshake.
    pub fn insert(&mut self, b2: StateB2<App>, expiry: i64)
        ensures
            final(self)@ == handshakes_with(old(self)@, b2@, expiry),
    {
        let ghost all = self@;
        if self.entries.len() >= MAX_UNASSOCIATED_HANDSHAKES {
            self.entries.remove(0);
            assert(self@ =~= all.remove(0));
        }
        self.entries.push(Handshake { b2, defrag: Fragged::new(), expiry });
        assert(self@ =~= handshakes_with(all, b2@, expiry));
    }

    /// Takes the fragment `no` of `count` of the completion with this nonce, for the handshake at
    /// place `i`. Where it was the last one missing, all of them come out.
    pub fn assemble(
        &mut self,
        i: usize,
        nonce: &[u8; AES_GCM_IV_SIZE],
        fragment: Vec<u8>,
        no: usize,
        count: usize,
    ) -> (r: Option<Vec<Vec<u8>>>)
        requires
            i < old(self)@.len(),
            no < count,
            handshakes_sound(old(self)@),
            fragment@.len() >= HEADER_SIZE,
        ensures
            ({
                let before = old(self)@[i as int];
                &&& final(self)@ == old(self)@.update(
                    i as int,
                    HandshakeView {
                        defrag: before.defrag.after(
                            nonce@,
                            fragment@,
                            no as int,
                            count as int,
                        ),
                        ..before
                    },
                )
                &&& r is Some <==> before.defrag.completes(nonce@, no as int, count as int)
                &&& r matches Some(fragments) ==> contents(fragments@) == before.defrag.assembled(
                    nonce@,
                    fragment@,
                    no as int,
                    count as int,
                )
            }),
            r matches Some(fragments) ==> forall|k: int|
                0 <= k < fragments@.len() ==> (#[trigger] fragments@[k])@.len() >= HEADER_SIZE,
            handshakes_sound(final(self)@),
    {
        let ghost all = self@;
        let ghost stored = fragment@;
        assert(all[i as int] == self.entries@[i as int]@);
        assert(all[i as int].defrag.sound());
        let r = self.entries[i].defrag.assemble(nonce, fragment, no, count);
        assert(self@ =~= all.update(
            i as int,
            HandshakeView {
                defrag: all[i as int].defrag.after(nonce@, stored, no as int, count as int),
                ..all[i as int]
            },
        ));
        assert forall|k: int| 0 <= k < self@.len() implies (#[trigger] self@[k]).b2.wf()
            && self@[k].defrag.sound() by {
            assert(all[k].b2.wf() && all[k].defrag.sound());
            assert(self@[i as int] == self.entries@[i as int]@);
        }
        r
    }

    /// Ends the handshake at place `i`, so that it is processed once and only once.
    pub fn remove(&mut self, i: usize) -> (r: StateB2<App>)
        requires
            i < old(self)@.len(),
        ensures
            r@ == old(self)@[i as int].b2,
            final(self)@ == old(self)@.remove(i as int),
    {
        let ghost all = self@;
        assert(all[i as int] == self.entries@[i as int]@);
        let entry = self.entries.remove(i);
        assert(self@ =~= all.remove(i as int));
        entry.b2
    }

    /// Drops the handshakes that have not been completed in time.
    pub fn service(&mut self, current_time: i64)
        ensures
            final(self)@ == alive::<Handshake<App>>(old(self)@, current_time),
    {
        drop_expired(&mut self.entries, current_time);
    }
}

/// What is left of the handshakes when some are dropped is well formed.
pub proof fn lemma_alive_handshakes_sound<App: ApplicationLayer>(
    entries: Seq<HandshakeView<App>>,
    current_time: i64,
)
    requires
        handshakes_sound(entries),
    ensures
        handshakes_sound(alive::<Handshake<App>>(entries, current_time)),
{
    let left = alive::<Handshake<App>>(entries, current_time);
    assert forall|i: int| 0 <= i < left.len() implies (#[trigger] left[i]).b2.wf()
        && left[i].defrag.sound() by {
        law_alive_entries::<Handshake<App>>(entries, current_time, i);
    }
}

} // verus!
