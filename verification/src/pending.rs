use vstd::prelude::*;

use crate::queues::QUEUE_LENGTH;

verus! {

/// How many slots of `s` are occupied.
pub open spec fn count_some(s: Seq<Option<usize>>) -> int
    decreases s.len(),
{
    if s.len() == 0 {
        0
    } else {
        count_some(s.drop_last()) + if s.last() is Some {
            1int
        } else {
            0int
        }
    }
}

/// Updating one slot changes the occupancy count by the difference between the
/// new and the old occupant.
pub proof fn lemma_count_some_update(s: Seq<Option<usize>>, i: int, v: Option<usize>)
    requires
        0 <= i < s.len(),
    ensures
        count_some(s.update(i, v)) == count_some(s) - (if s[i] is Some {
            1int
        } else {
            0int
        }) + (if v is Some {
            1int
        } else {
            0int
        }),
    decreases s.len(),
{
    let t = s.update(i, v);
    if i == s.len() - 1 {
        assert(t.drop_last() =~= s.drop_last());
    } else {
        assert(t.drop_last() =~= s.drop_last().update(i, v));
        lemma_count_some_update(s.drop_last(), i, v);
    }
}

/// The occupancy count never exceeds the number of slots.
pub proof fn lemma_count_some_le_len(s: Seq<Option<usize>>)
    ensures
        0 <= count_some(s) <= s.len(),
    decreases s.len(),
{
    if s.len() > 0 {
        lemma_count_some_le_len(s.drop_last());
    }
}

/// The pending table of a queue pair: a map from command identifier to the
/// request identifier awaiting that command. Keys are unique by construction
/// (one slot per command identifier) and the capacity equals the queue length,
/// matching the command-identifier space.
pub struct PendingTable {
    pub slots: Vec<Option<usize>>,
    pub count: usize,
}

impl PendingTable {
    pub open spec fn inv(self) -> bool {
        &&& 1 <= self.slots.len() <= QUEUE_LENGTH
        &&& self.count == count_some(self.slots@)
    }

    /// The command identifier has an awaiting request.
    pub open spec fn spec_contains(self, c_id: u16) -> bool {
        c_id < self.slots.len() && self.slots[c_id as int] is Some
    }

    /// The request identifier awaiting `c_id`.
    pub open spec fn spec_at(self, c_id: u16) -> usize {
        self.slots[c_id as int]->0
    }

    /// An empty table with one slot per command identifier.
    pub fn new(capacity: usize) -> (r: PendingTable)
        requires
            1 <= capacity <= QUEUE_LENGTH,
        ensures
            r.inv(),
            r.slots.len() == capacity,
            r.count == 0,
            forall|c: u16| !r.spec_contains(c),
    {
        let mut slots: Vec<Option<usize>> = Vec::new();
        let mut i: usize = 0;
        while i < capacity
            invariant
                i <= capacity,
                slots.len() == i,
                count_some(slots@) == 0,
                forall|j: int| 0 <= j < i ==> slots[j] is None,
            decreases capacity - i,
        {
            let ghost before = slots@;
            slots.push(None);
            proof {
                assert(slots@.drop_last() =~= before);
            }
            i = i + 1;
        }
        PendingTable { slots, count: 0 }
    }

    /// Registers the request `r_id` as awaiting command `c_id`. The identifier
    /// must be free: reusing a command identifier while its command is still
    /// outstanding is forbidden.
    pub fn insert(&mut self, c_id: u16, r_id: usize)
        requires
            old(self).inv(),
            (c_id as int) < old(self).slots.len(),
            !old(self).spec_contains(c_id),
        ensures
            final(self).inv(),
            final(self).slots@ == old(self).slots@.update(c_id as int, Some(r_id)),
            final(self).slots.len() == old(self).slots.len(),
            final(self).count == old(self).count + 1,
            final(self).spec_contains(c_id),
            final(self).spec_at(c_id) == r_id,
            forall|c: u16|
                c != c_id ==> final(self).spec_contains(c) == old(self).spec_contains(c),
            forall|c: u16|
                c != c_id && old(self).spec_contains(c) ==> final(self).spec_at(c) == old(
                    self,
                ).spec_at(c),
    {
        proof {
            lemma_count_some_update(self.slots@, c_id as int, Some(r_id));
            lemma_count_some_le_len(self.slots@);
        }
        self.slots[c_id as usize] = Some(r_id);
        self.count = self.count + 1;
    }

    /// Removes and returns the request awaiting `c_id`. A command identifier
    /// with no awaiting request — a duplicate or late completion — yields
    /// `None` and leaves the table unchanged.
    pub fn remove(&mut self, c_id: u16) -> (r: Option<usize>)
        requires
            old(self).inv(),
        ensures
            final(self).inv(),
            final(self).slots.len() == old(self).slots.len(),
            old(self).spec_contains(c_id) ==> {
                &&& r == Some(old(self).spec_at(c_id))
                &&& final(self).slots@ == old(self).slots@.update(c_id as int, None::<usize>)
                &&& final(self).count == old(self).count - 1
                &&& !final(self).spec_contains(c_id)
            },
            !old(self).spec_contains(c_id) ==> r is None && *final(self) == *old(self),
            forall|c: u16|
                c != c_id ==> final(self).spec_contains(c) == old(self).spec_contains(c),
            forall|c: u16|
                c != c_id && old(self).spec_contains(c) ==> final(self).spec_at(c) == old(
                    self,
                ).spec_at(c),
    {
        if (c_id as usize) < self.slots.len() {
            let cur = self.slots[c_id as usize];
            match cur {
                Some(r_id) => {
                    proof {
                        lemma_count_some_update(self.slots@, c_id as int, None::<usize>);
                        lemma_count_some_le_len(self.slots@.update(c_id as int, None::<usize>));
                    }
                    self.slots[c_id as usize] = None;
                    self.count = self.count - 1;
                    Some(r_id)
                },
                None => None,
            }
        } else {
            None
        }
    }

    /// Whether command `c_id` has an awaiting request.
    pub fn contains(&self, c_id: u16) -> (r: bool)
        ensures
            r == self.spec_contains(c_id),
    {
        if (c_id as usize) < self.slots.len() {
            self.slots[c_id as usize].is_some()
        } else {
            false
        }
    }

    /// Number of outstanding commands with an awaiting request.
    pub fn len(&self) -> (r: usize)
        ensures
            r == self.count,
    {
        self.count
    }

    pub fn is_empty(&self) -> (r: bool)
        ensures
            r == (self.count == 0),
    {
        self.count == 0
    }
}

} // verus!
