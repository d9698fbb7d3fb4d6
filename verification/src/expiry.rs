//! Lists whose entries are dropped when their time has come.

use vstd::prelude::*;

verus! {

/// An entry that is dropped after a time.
pub trait Expires: View {
    /// The time after which the entry is dropped.
    spec fn expires(entry: Self::V) -> i64;

    /// The time after which the entry is dropped.
    fn expiry(&self) -> (r: i64)
        ensures
            r == Self::expires(self@),
    ;
}

/// What the entries of a list hold.
pub open spec fn views<E: View>(entries: Seq<E>) -> Seq<E::V> {
    Seq::new(entries.len(), |i: int| entries[i]@)
}

/// The entries that are not dropped at `current_time`, in their order.
pub open spec fn alive<E: Expires>(entries: Seq<E::V>, current_time: i64) -> Seq<E::V>
    decreases entries.len(),
{
    if entries.len() == 0 {
        seq![]
    } else {
        let rest = alive::<E>(entries.drop_last(), current_time);
        if E::expires(entries.last()) < current_time {
            rest
        } else {
            rest.push(entries.last())
        }
    }
}

/// Each entry that is not dropped was there, and its time has not come.
pub proof fn law_alive_entries<E: Expires>(entries: Seq<E::V>, current_time: i64, i: int)
    requires
        0 <= i < alive::<E>(entries, current_time).len(),
    ensures
        entries.contains(alive::<E>(entries, current_time)[i]),
        E::expires(alive::<E>(entries, current_time)[i]) >= current_time,
    decreases entries.len(),
{
    if entries.len() > 0 {
        let rest = alive::<E>(entries.drop_last(), current_time);
        let entry = alive::<E>(entries, current_time)[i];
        if i < rest.len() {
            law_alive_entries::<E>(entries.drop_last(), current_time, i);
            let k = choose|k: int|
                0 <= k < entries.drop_last().len() && entries.drop_last()[k] == entry;
            assert(entries[k] == entry);
        } else {
            assert(entries[entries.len() - 1] == entry);
        }
    }
}

/// Drops the entries whose time has come.
pub fn drop_expired<E: Expires>(entries: &mut Vec<E>, current_time: i64)
    ensures
        views(final(entries)@) == alive::<E>(views(old(entries)@), current_time),
{
    let ghost all = views(entries@);
    let ghost mut seen: int = 0;
    let mut i: usize = 0;
    assert(all.subrange(0, 0) =~= Seq::empty());
    assert(views(entries@).subrange(0, 0) =~= Seq::empty());
    while i < entries.len()
        invariant
            i <= entries@.len(),
            0 <= seen <= all.len(),
            entries@.len() - i == all.len() - seen,
            views(entries@).subrange(0, i as int) == alive::<E>(
                all.subrange(0, seen),
                current_time,
            ),
            forall|k: int|
                i <= k < entries@.len() ==> (#[trigger] entries@[k])@ == all[k - i + seen],
        decreases entries@.len() - i,
    {
        let ghost now = views(entries@);
        let ghost next = all.subrange(0, seen + 1);
        assert(next.drop_last() =~= all.subrange(0, seen));
        assert(next.last() == entries@[i as int]@);
        if entries[i].expiry() < current_time {
            let ghost before = entries@;
            entries.remove(i);
            assert(views(entries@).subrange(0, i as int) =~= now.subrange(0, i as int));
            assert forall|k: int| i <= k < entries@.len() implies (#[trigger] entries@[k])@ == all[k
                - i + seen + 1] by {
                assert(entries@[k] == before[k + 1]);
            }
        } else {
            assert(now.subrange(0, i + 1) =~= now.subrange(0, i as int).push(now[i as int]));
            i += 1;
        }
        proof {
            seen = seen + 1;
        }
    }
    assert(views(entries@).subrange(0, i as int) =~= views(entries@));
    assert(all.subrange(0, seen) =~= all);
}

} // verus!
