use vstd::prelude::*;

use crate::cmd::NvmeCommand;
use crate::NvmeError;

verus! {

/// Maximum number of 64-byte submission entries on a 2 MiB huge page.
pub const QUEUE_LENGTH: usize = 1024;

/// The slot after `i` on a ring of `len` slots.
pub open spec fn ring_next(i: int, len: int) -> int {
    if i + 1 < len {
        i + 1
    } else {
        0
    }
}

/// How many slots lie between `from` and `to`, walking forward on a ring of
/// `len` slots. Zero when the two cursors are equal.
pub open spec fn ring_dist(from: int, to: int, len: int) -> int {
    if to >= from {
        to - from
    } else {
        to - from + len
    }
}

/// Advancing a cursor with wrap-around arithmetic lands on the next ring slot.
pub proof fn lemma_ring_inc(i: int, len: int)
    requires
        0 <= i < len,
    ensures
        (i + 1) % len == ring_next(i, len),
{
    if i + 1 < len {
        vstd::arithmetic::div_mod::lemma_small_mod((i + 1) as nat, len as nat);
    } else {
        vstd::arithmetic::div_mod::lemma_mod_self_0(len);
    }
}

/// A 16-byte completion queue entry (NVMe 1.4): the command-specific result
/// word, the submission queue head as seen by the controller, the submission
/// queue id, the command identifier, and the status word whose least
/// significant bit is the phase tag.
#[derive(Clone, Copy, Debug, PartialEq, Eq, Structural)]
pub struct NvmeCompletion {
    /// Command specific
    pub command_specific: u32,
    /// Reserved
    pub _rsvd: u32,
    /// Submission queue head
    pub sq_head: u16,
    /// Submission queue ID
    pub sq_id: u16,
    /// Command ID
    pub c_id: u16,
    /// Status field; bit 0 is the phase tag
    pub status: u16,
}

/// The phase tag of a status word.
pub open spec fn spec_phase_bit(status: u16) -> bool {
    status % 2 == 1
}

/// The status code of a status word (everything above the phase tag).
pub open spec fn spec_status_code(status: u16) -> u16 {
    status / 2
}

impl NvmeCompletion {
    /// An all-zero completion entry.
    pub fn zeroed() -> (r: NvmeCompletion)
        ensures
            r == (NvmeCompletion {
                command_specific: 0,
                _rsvd: 0,
                sq_head: 0,
                sq_id: 0,
                c_id: 0,
                status: 0,
            }),
    {
        NvmeCompletion { command_specific: 0, _rsvd: 0, sq_head: 0, sq_id: 0, c_id: 0, status: 0 }
    }

    /// The phase tag of this entry.
    pub fn phase_bit(&self) -> (r: bool)
        ensures
            r == spec_phase_bit(self.status),
    {
        self.status % 2 == 1
    }

    /// The status code of this entry, with the phase tag stripped.
    pub fn status_code(&self) -> (r: u16)
        ensures
            r == spec_status_code(self.status),
    {
        self.status / 2
    }
}

/// Submission queue: a fixed ring of 64-byte command slots. The host owns the
/// slots outside `[head, tail)`; the device owns `[head, tail)`. `db_tail`
/// records the tail value last written to the doorbell register: the device
/// fetches entries only from `[head, db_tail)`, so a slot becomes visible to
/// the device only after it was filled and the doorbell was rung.
pub struct NvmeSubQueue {
    pub commands: Vec<NvmeCommand>,
    pub head: usize,
    pub tail: usize,
    pub len: usize,
    /// Byte offset of this queue's tail doorbell register within BAR0.
    pub doorbell: usize,
    /// The tail value last published through the doorbell register.
    pub db_tail: usize,
    /// Physical base address of the ring memory.
    pub phys: usize,
}

impl NvmeSubQueue {
    /// Structural well-formedness: cursors stay on the ring and the doorbell
    /// never runs ahead of the tail, so every slot the device may fetch has
    /// been filled first.
    pub open spec fn inv(self) -> bool {
        &&& self.commands.len() == QUEUE_LENGTH
        &&& 1 <= self.len <= QUEUE_LENGTH
        &&& self.head < self.len
        &&& self.tail < self.len
        &&& self.db_tail < self.len
        &&& ring_dist(self.head as int, self.db_tail as int, self.len as int) <= ring_dist(
            self.head as int,
            self.tail as int,
            self.len as int,
        )
    }

    /// Number of slots the device currently owns.
    pub open spec fn outstanding(self) -> int {
        ring_dist(self.head as int, self.tail as int, self.len as int)
    }

    /// Number of commands the host may still submit before the ring is full.
    pub open spec fn free_slots(self) -> int {
        self.len - 1 - self.outstanding()
    }

    pub open spec fn spec_is_empty(self) -> bool {
        self.head == self.tail
    }

    pub open spec fn spec_is_full(self) -> bool {
        self.outstanding() == self.len - 1
    }

    /// A fresh ring of `min(len, QUEUE_LENGTH)` slots whose memory the
    /// external allocator pinned at `phys`, with its tail doorbell register at
    /// byte offset `doorbell` within BAR0.
    pub fn new(len: usize, doorbell: usize, phys: usize) -> (r: Result<NvmeSubQueue, NvmeError>)
        requires
            len >= 1,
        ensures
            r is Ok,
            r matches Ok(q) ==> {
                &&& q.inv()
                &&& q.head == 0
                &&& q.tail == 0
                &&& q.db_tail == 0
                &&& q.len == if len < QUEUE_LENGTH {
                    len as int
                } else {
                    QUEUE_LENGTH as int
                }
                &&& q.doorbell == doorbell
                &&& q.phys == phys
                &&& forall|i: int|
                    0 <= i < QUEUE_LENGTH ==> q.commands[i] == crate::cmd::spec_zeroed_command()
            },
    {
        let mut commands: Vec<NvmeCommand> = Vec::new();
        let mut i: usize = 0;
        while i < QUEUE_LENGTH
            invariant
                i <= QUEUE_LENGTH,
                commands.len() == i,
                forall|j: int| 0 <= j < i ==> commands[j] == crate::cmd::spec_zeroed_command(),
            decreases QUEUE_LENGTH - i,
        {
            commands.push(NvmeCommand::zeroed());
            i = i + 1;
        }
        let capped = if len < QUEUE_LENGTH {
            len
        } else {
            QUEUE_LENGTH
        };
        Ok(NvmeSubQueue { commands, head: 0, tail: 0, len: capped, doorbell, db_tail: 0, phys })
    }

    pub fn is_empty(&self) -> (r: bool)
        ensures
            r == self.spec_is_empty(),
    {
        self.head == self.tail
    }

    pub fn is_full(&self) -> (r: bool)
        requires
            self.inv(),
        ensures
            r == self.spec_is_full(),
    {
        proof {
            lemma_ring_inc(self.tail as int, self.len as int);
        }
        self.head == (self.tail + 1) % self.len
    }

    /// Stores `entry` at the tail slot and advances the tail, returning the
    /// new tail. The doorbell is not touched: the entry stays invisible to the
    /// device until the tail is published.
    pub fn submit(&mut self, entry: NvmeCommand) -> (r: usize)
        requires
            old(self).inv(),
            !old(self).spec_is_full(),
        ensures
            final(self).inv(),
            final(self).commands@ == old(self).commands@.update(old(self).tail as int, entry),
            final(self).tail == ring_next(old(self).tail as int, old(self).len as int),
            r == final(self).tail,
            final(self).head == old(self).head,
            final(self).len == old(self).len,
            final(self).doorbell == old(self).doorbell,
            final(self).db_tail == old(self).db_tail,
            final(self).phys == old(self).phys,
            final(self).outstanding() == old(self).outstanding() + 1,
    {
        self.commands[self.tail] = entry;
        proof {
            lemma_ring_inc(self.tail as int, self.len as int);
        }
        self.tail = (self.tail + 1) % self.len;
        self.tail
    }

    /// `submit`, guarded: returns `None` and leaves the ring unchanged when it
    /// is full.
    pub fn submit_checked(&mut self, entry: NvmeCommand) -> (r: Option<usize>)
        requires
            old(self).inv(),
        ensures
            final(self).inv(),
            old(self).spec_is_full() ==> r is None && *final(self) == *old(self),
            !old(self).spec_is_full() ==> {
                &&& r == Some(final(self).tail)
                &&& final(self).commands@ == old(self).commands@.update(
                    old(self).tail as int,
                    entry,
                )
                &&& final(self).tail == ring_next(old(self).tail as int, old(self).len as int)
                &&& final(self).head == old(self).head
                &&& final(self).len == old(self).len
                &&& final(self).doorbell == old(self).doorbell
                &&& final(self).db_tail == old(self).db_tail
                &&& final(self).phys == old(self).phys
            },
    {
        if self.is_full() {
            None
        } else {
            Some(self.submit(entry))
        }
    }

    /// Physical base address of the ring, as handed to queue-creation admin
    /// commands.
    pub fn get_addr(&self) -> (r: usize)
        ensures
            r == self.phys,
    {
        self.phys
    }

    /// Records that `tail` was written to the tail doorbell register: all
    /// entries up to `tail` become visible to the device. The new value must
    /// lie between the published tail and the ring tail, so only filled slots
    /// are ever handed over.
    pub fn publish_tail(&mut self, tail: usize)
        requires
            old(self).inv(),
            tail < old(self).len,
            ring_dist(old(self).head as int, old(self).db_tail as int, old(self).len as int)
                <= ring_dist(old(self).head as int, tail as int, old(self).len as int),
            ring_dist(old(self).head as int, tail as int, old(self).len as int) <= ring_dist(
                old(self).head as int,
                old(self).tail as int,
                old(self).len as int,
            ),
        ensures
            final(self).inv(),
            *final(self) == (NvmeSubQueue { db_tail: tail, ..*old(self) }),
    {
        self.db_tail = tail;
    }

    /// Frees one submission slot: the completion of a published command moves
    /// the head cursor forward. The host head is authoritative for free-slot
    /// accounting, so it advances by exactly one per accepted completion.
    pub fn advance_head(&mut self)
        requires
            old(self).inv(),
            ring_dist(old(self).head as int, old(self).db_tail as int, old(self).len as int) >= 1,
        ensures
            final(self).inv(),
            final(self).head == ring_next(old(self).head as int, old(self).len as int),
            final(self).commands == old(self).commands,
            final(self).tail == old(self).tail,
            final(self).len == old(self).len,
            final(self).doorbell == old(self).doorbell,
            final(self).db_tail == old(self).db_tail,
            final(self).phys == old(self).phys,
            final(self).outstanding() == old(self).outstanding() - 1,
    {
        proof {
            lemma_ring_inc(self.head as int, self.len as int);
        }
        self.head = (self.head + 1) % self.len;
    }
}

/// Completion queue: a fixed ring of 16-byte entries written by the device.
/// An entry at the head is new exactly when its phase tag equals the ring's
/// current `phase`; consuming the last slot wraps the head to zero and flips
/// `phase`, so entries of the previous lap are never yielded again.
pub struct NvmeCompQueue {
    pub commands: Vec<NvmeCompletion>,
    pub head: usize,
    pub phase: bool,
    pub len: usize,
    /// Byte offset of this queue's head doorbell register within BAR0.
    pub doorbell: usize,
    /// The head value last published through the doorbell register.
    pub db_head: usize,
    /// Physical base address of the ring memory.
    pub phys: usize,
}

impl NvmeCompQueue {
    pub open spec fn inv(self) -> bool {
        &&& self.commands.len() == QUEUE_LENGTH
        &&& 1 <= self.len <= QUEUE_LENGTH
        &&& self.head < self.len
        &&& self.db_head < self.len
    }

    /// The entry at the head is new: its phase tag equals the ring phase.
    pub open spec fn spec_can_complete(self) -> bool {
        spec_phase_bit(self.commands[self.head as int].status) == self.phase
    }

    /// The ring state after consuming the entry at the head.
    pub open spec fn spec_after_complete(self) -> NvmeCompQueue {
        let h = ring_next(self.head as int, self.len as int);
        NvmeCompQueue {
            head: h as usize,
            phase: if h == 0 {
                !self.phase
            } else {
                self.phase
            },
            ..self
        }
    }

    /// A fresh ring of `min(len, QUEUE_LENGTH)` slots whose memory the
    /// external allocator pinned at `phys`, with its head doorbell register at
    /// byte offset `doorbell` within BAR0. The phase starts at `true`: the
    /// device marks first-lap entries with the phase tag set.
    pub fn new(len: usize, doorbell: usize, phys: usize) -> (r: Result<NvmeCompQueue, NvmeError>)
        requires
            len >= 1,
        ensures
            r is Ok,
            r matches Ok(q) ==> {
                &&& q.inv()
                &&& q.head == 0
                &&& q.phase == true
                &&& q.db_head == 0
                &&& q.len == if len < QUEUE_LENGTH {
                    len as int
                } else {
                    QUEUE_LENGTH as int
                }
                &&& q.doorbell == doorbell
                &&& q.phys == phys
                &&& forall|i: int| 0 <= i < QUEUE_LENGTH ==> (#[trigger] q.commands[i]).status == 0
            },
    {
        let mut commands: Vec<NvmeCompletion> = Vec::new();
        let mut i: usize = 0;
        while i < QUEUE_LENGTH
            invariant
                i <= QUEUE_LENGTH,
                commands.len() == i,
                forall|j: int| 0 <= j < i ==> (#[trigger] commands[j]).status == 0,
            decreases QUEUE_LENGTH - i,
        {
            commands.push(NvmeCompletion::zeroed());
            i = i + 1;
        }
        let capped = if len < QUEUE_LENGTH {
            len
        } else {
            QUEUE_LENGTH
        };
        Ok(NvmeCompQueue { commands, head: 0, phase: true, len: capped, doorbell, db_head: 0, phys })
    }

    /// Reads the entry at the head. If its phase tag equals the ring phase the
    /// entry is new: the head advances (flipping the phase on wrap) and the
    /// call returns the new head, the entry, and the slot it was read from.
    /// Otherwise the ring is unchanged and the call returns `None`.
    pub fn complete(&mut self) -> (r: Option<(usize, NvmeCompletion, usize)>)
        requires
            old(self).inv(),
        ensures
            final(self).inv(),
            r is Some <==> old(self).spec_can_complete(),
            old(self).spec_can_complete() ==> {
                &&& *final(self) == old(self).spec_after_complete()
                &&& r == Some(
                    (
                        final(self).head,
                        old(self).commands[old(self).head as int],
                        old(self).head,
                    ),
                )
            },
            !old(self).spec_can_complete() ==> *final(self) == *old(self),
    {
        let entry = self.commands[self.head];
        if (entry.status % 2 == 1) == self.phase {
            let prev = self.head;
            proof {
                lemma_ring_inc(self.head as int, self.len as int);
            }
            self.head = (self.head + 1) % self.len;
            if self.head == 0 {
                self.phase = !self.phase;
            }
            Some((self.head, entry, prev))
        } else {
            None
        }
    }

    /// The ring state after skipping `commands - 1` entries the caller has
    /// already handled: the head jumps forward and the phase flips when the
    /// jump ran off the end of the ring.
    pub open spec fn spec_after_skip(self, commands: int) -> NvmeCompQueue {
        let moved = self.head + commands - 1;
        NvmeCompQueue {
            head: (moved % self.len as int) as usize,
            phase: if moved >= self.len {
                !self.phase
            } else {
                self.phase
            },
            ..self
        }
    }

    /// Steps over `commands - 1` entries, then consumes the next one, which
    /// must already be posted. Returns the new head, that entry, and the head
    /// the batch started from.
    pub fn complete_n(&mut self, commands: usize) -> (r: (usize, NvmeCompletion, usize))
        requires
            old(self).inv(),
            1 <= commands <= old(self).len,
            old(self).spec_after_skip(commands as int).spec_can_complete(),
        ensures
            final(self).inv(),
            *final(self) == old(self).spec_after_skip(commands as int).spec_after_complete(),
            r == (
                final(self).head,
                old(self).commands[old(self).spec_after_skip(commands as int).head as int],
                old(self).head,
            ),
    {
        let prev = self.head;
        self.head = self.head + (commands - 1);
        if self.head >= self.len {
            self.phase = !self.phase;
        }
        self.head = self.head % self.len;
        proof {
            let moved = old(self).head + commands - 1;
            if moved >= self.len as int {
                assert(moved - self.len < self.len);
                assert(moved % self.len as int == moved - self.len) by {
                    vstd::arithmetic::div_mod::lemma_mod_sub_multiples_vanish(
                        moved,
                        self.len as int,
                    );
                    vstd::arithmetic::div_mod::lemma_small_mod(
                        (moved - self.len) as nat,
                        self.len as nat,
                    );
                }
            } else {
                assert(moved % self.len as int == moved) by {
                    vstd::arithmetic::div_mod::lemma_small_mod(moved as nat, self.len as nat);
                }
            }
        }
        let (head, entry, _) = self.complete_spin();
        (head, entry, prev)
    }

    /// Consumes the entry at the head, which the caller knows is already
    /// posted, so no waiting is needed.
    pub fn complete_spin(&mut self) -> (r: (usize, NvmeCompletion, usize))
        requires
            old(self).inv(),
            old(self).spec_can_complete(),
        ensures
            final(self).inv(),
            *final(self) == old(self).spec_after_complete(),
            r == (final(self).head, old(self).commands[old(self).head as int], old(self).head),
    {
        let r = self.complete();
        r.unwrap()
    }

    /// Advances the head by one slot without reading an entry, flipping the
    /// phase on wrap. Returns the new and the previous head.
    pub fn new_head(&mut self) -> (r: (usize, usize))
        requires
            old(self).inv(),
        ensures
            final(self).inv(),
            *final(self) == old(self).spec_after_complete(),
            r == (final(self).head, old(self).head),
    {
        let prev = self.head;
        proof {
            lemma_ring_inc(self.head as int, self.len as int);
        }
        self.head = (self.head + 1) % self.len;
        if self.head == 0 {
            self.phase = !self.phase;
        }
        (self.head, prev)
    }

    /// Physical base address of the ring, as handed to queue-creation admin
    /// commands.
    pub fn get_addr(&self) -> (r: usize)
        ensures
            r == self.phys,
    {
        self.phys
    }

    /// Records that `head` was written to the head doorbell register,
    /// returning completion-slot credit to the device.
    pub fn publish_head(&mut self, head: usize)
        requires
            old(self).inv(),
            head < old(self).len,
        ensures
            final(self).inv(),
            *final(self) == (NvmeCompQueue { db_head: head, ..*old(self) }),
    {
        self.db_head = head;
    }

    /// The device's side of the shared ring memory: the controller stores a
    /// completion entry into slot `idx`. Host code never writes the ring.
    pub fn device_write(&mut self, idx: usize, entry: NvmeCompletion)
        requires
            old(self).inv(),
            idx < old(self).len,
        ensures
            final(self).inv(),
            *final(self) == (NvmeCompQueue {
                commands: final(self).commands,
                ..*old(self)
            }),
            final(self).commands@ == old(self).commands@.update(idx as int, entry),
    {
        self.commands[idx] = entry;
    }
}

/// The device is never handed an unfilled slot: on a well-formed submission
/// ring, every slot the doorbell has published — the range from the head to
/// the published tail — lies within the range the host has filled, from the
/// head to the ring tail. Together with `publish_tail`'s precondition, the
/// doorbell value can only ever trail the entries written before it; the
/// release fence that orders the stores on the device side is the MMIO
/// layer's duty.
pub proof fn lemma_doorbell_covers_filled_slots(q: NvmeSubQueue)
    requires
        q.inv(),
    ensures
        ring_dist(q.head as int, q.db_tail as int, q.len as int) <= ring_dist(
            q.head as int,
            q.tail as int,
            q.len as int,
        ),
{
}

/// A completion consumed just before a wrap and the one consumed just after
/// carry different phase tags: entries of the lap before the wrap can never be
/// yielded again after it. This is the monotonicity of the phase protocol
/// across a wrap of the completion ring.
pub proof fn lemma_wrap_separates_phases(cq: NvmeCompQueue)
    requires
        cq.inv(),
        cq.spec_can_complete(),
        cq.head == cq.len - 1,
        cq.spec_after_complete().spec_can_complete(),
    ensures
        spec_phase_bit(cq.commands[cq.head as int].status) != spec_phase_bit(
            cq.spec_after_complete().commands[cq.spec_after_complete().head as int].status,
        ),
{
    let cq2 = cq.spec_after_complete();
    assert(cq2.head == 0);
    assert(cq2.phase == !cq.phase);
}

} // verus!
