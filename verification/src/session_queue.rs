//! The queue of sessions by the time at which each is to be looked at next.

use vstd::prelude::*;

verus! {

/// The sessions, each with the time at which it is to be looked at.
pub struct SessionQueue {
    pub entries: Vec<(i64, usize)>,
}

impl View for SessionQueue {
    type V = Seq<(i64, usize)>;

    open spec fn view(&self) -> Seq<(i64, usize)> {
        self.entries@
    }
}

/// The entries with the time of one session changed.
pub open spec fn rescheduled(entries: Seq<(i64, usize)>, session: usize, timer: i64) -> Seq<
    (i64, usize),
> {
    Seq::new(
        entries.len(),
        |i: int|
            if entries[i].1 == session {
                (timer, session)
            } else {
                entries[i]
            },
    )
}

/// The entries without those of one session.
pub open spec fn unscheduled(entries: Seq<(i64, usize)>, session: usize) -> Seq<(i64, usize)>
    decreases entries.len(),
{
    if entries.len() == 0 {
        seq![]
    } else {
        let rest = unscheduled(entries.drop_last(), session);
        if entries.last().1 == session {
            rest
        } else {
            rest.push(entries.last())
        }
    }
}

/// No entry is due before the one at place `i`.
pub open spec fn is_first(entries: Seq<(i64, usize)>, i: int) -> bool {
    &&& 0 <= i < entries.len()
    &&& forall|k: int| 0 <= k < entries.len() ==> entries[i].0 <= (#[trigger] entries[k]).0
}

/// What is left when a session is taken out was there, and is not of that session.
pub proof fn lemma_unscheduled(entries: Seq<(i64, usize)>, session: usize)
    ensures
        unscheduled(entries, session).len() <= entries.len(),
        forall|i: int|
            0 <= i < unscheduled(entries, session).len() ==> entries.contains(
                #[trigger] unscheduled(entries, session)[i],
            ) && unscheduled(entries, session)[i].1 != session,
        forall|e: (i64, usize)|
            entries.contains(e) && e.1 != session ==> #[trigger] unscheduled(
                entries,
                session,
            ).contains(e),
    decreases entries.len(),
{
    if entries.len() > 0 {
        let rest = unscheduled(entries.drop_last(), session);
        let left = unscheduled(entries, session);
        lemma_unscheduled(entries.drop_last(), session);
        assert forall|i: int| 0 <= i < left.len() implies entries.contains(#[trigger] left[i])
            && left[i].1 != session by {
            if i < rest.len() {
                let k = choose|k: int|
                    0 <= k < entries.drop_last().len() && entries.drop_last()[k] == rest[i];
                assert(entries[k] == rest[i]);
            } else {
                assert(entries[entries.len() - 1] == left[i]);
            }
        }
        assert forall|e: (i64, usize)| entries.contains(e) && e.1 != session implies #[trigger] left.contains(
            e,
        ) by {
            let k = choose|k: int| 0 <= k < entries.len() && entries[k] == e;
            if k < entries.len() - 1 {
                assert(entries.drop_last()[k] == e);
                assert(rest.contains(e));
                let j = choose|j: int| 0 <= j < rest.len() && rest[j] == e;
                assert(left[j] == e);
            } else {
                assert(left[left.len() - 1] == e);
            }
        }
    }
}

impl SessionQueue {
    /// A queue of no session.
    pub fn new() -> (r: SessionQueue)
        ensures
            r@ == Seq::<(i64, usize)>::empty(),
    {
        SessionQueue { entries: Vec::new() }
    }

    /// Adds a session.
    pub fn insert(&mut self, session: usize, timer: i64)
        ensures
            final(self)@ == old(self)@.push((timer, session)),
    {
        self.entries.push((timer, session));
    }

    /// The place of the session that is to be looked at first.
    pub fn peek(&self) -> (r: Option<usize>)
        ensures
            match r {
                Some(i) => is_first(self@, i as int),
                None => self@.len() == 0,
            },
    {
        if self.entries.len() == 0 {
            return None;
        }
        let mut first: usize = 0;
        let mut i: usize = 1;
        while i < self.entries.len()
            invariant
                1 <= i <= self.entries@.len(),
                first < i,
                forall|k: int|
                    0 <= k < i ==> self.entries@[first as int].0 <= (#[trigger] self.entries@[k]).0,
            decreases self.entries@.len() - i,
        {
            if self.entries[i].0 < self.entries[first].0 {
                first = i;
            }
            i += 1;
        }
        Some(first)
    }

    /// Changes the time at which a session is to be looked at.
    pub fn change_priority(&mut self, session: usize, timer: i64)
        ensures
            final(self)@ == rescheduled(old(self)@, session, timer),
    {
        let ghost all = self@;
        let mut i: usize = 0;
        while i < self.entries.len()
            invariant
                i <= self.entries@.len(),
                self.entries@.len() == all.len(),
                forall|k: int|
                    0 <= k < i ==> #[trigger] self.entries@[k] == rescheduled(
                        all,
                        session,
                        timer,
                    )[k],
                forall|k: int| i <= k < all.len() ==> #[trigger] self.entries@[k] == all[k],
            decreases self.entries@.len() - i,
        {
            if self.entries[i].1 == session {
                self.entries.set(i, (timer, session));
            }
            i += 1;
        }
        assert(self@ =~= rescheduled(all, session, timer));
    }

    /// Takes a session out.
    pub fn remove(&mut self, session: usize)
        ensures
            final(self)@ == unscheduled(old(self)@, session),
    {
        let ghost all = self@;
        let mut left: Vec<(i64, usize)> = Vec::new();
        let mut i: usize = 0;
        assert(all.subrange(0, 0) =~= Seq::<(i64, usize)>::empty());
        while i < self.entries.len()
            invariant
                i <= self.entries@.len(),
                self.entries@ == all,
                left@ == unscheduled(all.subrange(0, i as int), session),
            decreases self.entries@.len() - i,
        {
            let ghost next = all.subrange(0, i + 1);
            assert(next.drop_last() =~= all.subrange(0, i as int));
            if self.entries[i].1 != session {
                left.push(self.entries[i]);
            }
            i += 1;
        }
        assert(all.subrange(0, i as int) =~= all);
        self.entries = left;
    }
}

} // verus!
