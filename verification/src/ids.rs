//! The request-ID allocator: a fixed pool of slots `[0, max_slots)`, each
//! either free or in use.

use vstd::prelude::*;

verus! {

/// How many of the booleans in `s` are set.
pub open spec fn count_true(s: Seq<bool>) -> nat
    decreases s.len(),
{
    if s.len() == 0 {
        0
    } else {
        count_true(s.drop_last()) + (if s.last() {
            1nat
        } else {
            0nat
        })
    }
}

/// No more booleans are set than there are booleans.
pub proof fn lemma_count_true_le_len(s: Seq<bool>)
    ensures
        count_true(s) <= s.len(),
    decreases s.len(),
{
    if s.len() > 0 {
        lemma_count_true_le_len(s.drop_last());
    }
}

/// Setting one boolean changes the count by exactly its difference.
pub proof fn lemma_count_true_update(s: Seq<bool>, i: int, b: bool)
    requires
        0 <= i < s.len(),
    ensures
        count_true(s.update(i, b)) == count_true(s) + (if b {
            1int
        } else {
            0int
        }) - (if s[i] {
            1int
        } else {
            0int
        }),
    decreases s.len(),
{
    let t = s.update(i, b);
    if i == s.len() - 1 {
        assert(t.drop_last() =~= s.drop_last());
    } else {
        assert(t.drop_last() =~= s.drop_last().update(i, b));
        lemma_count_true_update(s.drop_last(), i, b);
    }
}

/// If every boolean is set, the count is the length.
pub proof fn lemma_count_true_full(s: Seq<bool>)
    requires
        forall|i: int| 0 <= i < s.len() ==> s[i],
    ensures
        count_true(s) == s.len(),
    decreases s.len(),
{
    if s.len() > 0 {
        lemma_count_true_full(s.drop_last());
    }
}

/// Hands out currently-unused request IDs from the fixed pool
/// `[0, max_slots)` and takes them back when a call completes.
pub struct IdAllocator {
    /// `slots[i]` holds exactly when ID `i` is in use.
    slots: Vec<bool>,
    /// The number of IDs in use.
    count: usize,
}

impl IdAllocator {
    /// The size of the pool.
    pub closed spec fn max_slots(self) -> nat {
        self.slots@.len()
    }

    /// Whether ID `id` is currently in use.
    pub closed spec fn slot_used(self, id: int) -> bool {
        0 <= id < self.slots@.len() && self.slots@[id]
    }

    /// The slots as a sequence of in-use flags.
    pub closed spec fn slots_view(self) -> Seq<bool> {
        self.slots@
    }

    /// The number of IDs in use.
    pub closed spec fn in_use(self) -> nat {
        count_true(self.slots@)
    }

    /// The allocator's internal consistency: the count field counts the set
    /// slots.
    pub closed spec fn wf(self) -> bool {
        self.count as nat == count_true(self.slots@)
    }

    /// At most `max_slots` IDs are ever in use.
    pub proof fn lemma_in_use_bounded(self)
        ensures
            self.in_use() <= self.max_slots(),
    {
        lemma_count_true_le_len(self.slots@);
    }

    /// A fresh pool of `max_slots` IDs, all free.
    pub fn new(max_slots: usize) -> (r: IdAllocator)
        ensures
            r.wf(),
            r.max_slots() == max_slots,
            r.in_use() == 0,
            forall|id: int| !r.slot_used(id),
    {
        let mut slots: Vec<bool> = Vec::new();
        let mut i: usize = 0;
        while i < max_slots
            invariant
                i <= max_slots,
                slots@.len() == i,
                forall|k: int| 0 <= k < i ==> !slots@[k],
                count_true(slots@) == 0,
            decreases max_slots - i,
        {
            let ghost prev = slots@;
            slots.push(false);
            proof {
                assert(slots@.drop_last() =~= prev);
            }
            i = i + 1;
        }
        IdAllocator { slots, count: 0 }
    }

    /// The number of IDs currently in use.
    pub fn in_use_count(&self) -> (r: usize)
        requires
            self.wf(),
        ensures
            r as nat == self.in_use(),
    {
        self.count
    }

    /// The size of the pool.
    pub fn capacity(&self) -> (r: usize)
        ensures
            r as nat == self.max_slots(),
    {
        self.slots.len()
    }

    /// Hands out the lowest unused ID, or reports that every slot is taken.
    /// An ID comes back exactly when some slot is free.
    pub fn acquire(&mut self) -> (r: Option<u64>)
        requires
            old(self).wf(),
        ensures
            final(self).wf(),
            final(self).max_slots() == old(self).max_slots(),
            match r {
                Some(id) => {
                    &&& id < old(self).max_slots()
                    &&& !old(self).slot_used(id as int)
                    &&& forall|j: int| 0 <= j < id as int ==> old(self).slot_used(j)
                    &&& final(self).slot_used(id as int)
                    &&& forall|j: int|
                        j != id as int ==> final(self).slot_used(j) == old(
                            self,
                        ).slot_used(j)
                    &&& final(self).slots_view() == old(self).slots_view().update(
                        id as int,
                        true,
                    )
                    &&& final(self).in_use() == old(self).in_use() + 1
                },
                None => {
                    &&& old(self).in_use() == old(self).max_slots()
                    &&& *final(self) == *old(self)
                },
            },
    {
        let n = self.slots.len();
        let mut i: usize = 0;
        while i < n
            invariant
                i <= n,
                n == self.slots@.len(),
                *self == *old(self),
                self.wf(),
                forall|k: int| 0 <= k < i ==> self.slots@[k],
            decreases n - i,
        {
            if !self.slots[i] {
                proof {
                    lemma_count_true_update(self.slots@, i as int, true);
                    lemma_count_true_le_len(self.slots@.update(i as int, true));
                }
                self.slots.set(i, true);
                self.count = self.count + 1;
                return Some(i as u64);
            }
            i = i + 1;
        }
        proof {
            lemma_count_true_full(self.slots@);
        }
        None
    }

    /// Returns an in-use ID to the pool.
    pub fn release(&mut self, id: u64)
        requires
            old(self).wf(),
            old(self).slot_used(id as int),
        ensures
            final(self).wf(),
            final(self).max_slots() == old(self).max_slots(),
            !final(self).slot_used(id as int),
            forall|j: int| j != id as int ==> final(self).slot_used(j) == old(self).slot_used(j),
            final(self).slots_view() == old(self).slots_view().update(id as int, false),
            final(self).in_use() == old(self).in_use() - 1,
    {
        proof {
            lemma_count_true_update(self.slots@, id as int, false);
        }
        let n = self.slots.len();
        let idx = id as usize;
        proof {
            assert(id < n as u64);
            assert(idx as int == id as int);
        }
        self.slots.set(idx, false);
        self.count = self.count - 1;
    }
}

} // verus!
