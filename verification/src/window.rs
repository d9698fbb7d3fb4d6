//! The window of received counters, which keeps a packet from being taken twice.

use vstd::prelude::*;

use crate::proto::{COUNTER_WINDOW_MAX_OOO, COUNTER_WINDOW_MAX_SKIP_AHEAD};

verus! {

/// The largest counters that have been received, one for each remainder by the size of the
/// window. A slot holds a counter plus one, or zero where none was received.
pub struct Window {
    slots: [u64; COUNTER_WINDOW_MAX_OOO],
}

impl View for Window {
    type V = Seq<u64>;

    closed spec fn view(&self) -> Seq<u64> {
        self.slots@
    }
}

/// The slot that a counter belongs to.
pub open spec fn slot_of(counter: u64) -> int {
    counter as int % COUNTER_WINDOW_MAX_OOO as int
}

/// A counter is taken where it is larger than the one in its slot, and not so much larger that
/// the sender would have had to skip ahead.
pub open spec fn window_takes(slots: Seq<u64>, counter: u64) -> bool {
    slots[slot_of(counter)] <= counter < slots[slot_of(counter)] + COUNTER_WINDOW_MAX_SKIP_AHEAD
        && counter < u64::MAX
}

/// The window after a counter has been received.
pub open spec fn window_after(slots: Seq<u64>, counter: u64) -> Seq<u64> {
    slots.update(slot_of(counter), (counter + 1) as u64)
}

/// A counter that has been received is not taken again, whatever else is received before or
/// after it.
pub proof fn law_counter_taken_once(slots: Seq<u64>, counter: u64, later: Seq<u64>)
    requires
        slots.len() == COUNTER_WINDOW_MAX_OOO,
        window_takes(slots, counter),
        later.len() == COUNTER_WINDOW_MAX_OOO,
        forall|i: int| 0 <= i < COUNTER_WINDOW_MAX_OOO ==> window_after(slots, counter)[i]
            <= #[trigger] later[i],
    ensures
        !window_takes(later, counter),
{
    assert(window_after(slots, counter)[slot_of(counter)] <= later[slot_of(counter)]);
}

/// Receiving a counter that is taken never makes a slot smaller.
pub proof fn law_window_grows(slots: Seq<u64>, counter: u64, i: int)
    requires
        slots.len() == COUNTER_WINDOW_MAX_OOO,
        window_takes(slots, counter),
        0 <= i < COUNTER_WINDOW_MAX_OOO,
    ensures
        slots[i] <= window_after(slots, counter)[i],
{
}

impl Window {
    /// The window before any counter was received.
    pub fn new() -> (r: Window)
        ensures
            r@ == Seq::new(COUNTER_WINDOW_MAX_OOO as nat, |i: int| 0u64),
    {
        let r = Window { slots: [0u64; COUNTER_WINDOW_MAX_OOO] };
        assert(r@ =~= Seq::new(COUNTER_WINDOW_MAX_OOO as nat, |i: int| 0u64));
        r
    }

    /// Says whether a packet with this counter is to be looked at.
    pub fn check(&self, counter: u64) -> (r: bool)
        ensures
            r == window_takes(self@, counter),
    {
        let slot: u64 = self.slots[(counter % COUNTER_WINDOW_MAX_OOO as u64) as usize];
        counter < u64::MAX && slot <= counter && counter - slot < COUNTER_WINDOW_MAX_SKIP_AHEAD
    }

    /// Records that an authentic packet with this counter was received, and says whether it is
    /// the first one.
    pub fn update(&mut self, counter: u64) -> (r: bool)
        ensures
            r == window_takes(old(self)@, counter),
            final(self)@ == if r {
                window_after(old(self)@, counter)
            } else {
                old(self)@
            },
    {
        if !self.check(counter) {
            return false;
        }
        self.slots[(counter % COUNTER_WINDOW_MAX_OOO as u64) as usize] = counter + 1;
        assert(self@ =~= window_after(old(self)@, counter));
        true
    }
}

} // verus!
