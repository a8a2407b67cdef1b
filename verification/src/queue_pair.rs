use vstd::prelude::*;

use crate::cmd::{spec_io_command, NvmeCommand};
use crate::memory::{DmaSlice, PAGE_SIZE};
use crate::pending::PendingTable;
use crate::prp::{build_prp, spec_page_addr, spec_pages_spanned, PRP_CHUNK_SIZE};
use crate::queues::{
    ring_dist, ring_next, spec_status_code, NvmeCompQueue, NvmeCompletion, NvmeSubQueue,
    QUEUE_LENGTH,
};
use crate::NvmeError;

verus! {

/// A matched submission/completion ring pair sharing one 16-bit command-ID
/// space, together with its pending table and the PRP-list pages, one page per
/// command slot.
pub struct NvmeQueuePair {
    /// Queue identifier; I/O queues start at 1, 0 is the admin pair.
    pub id: u16,
    pub sub_queue: NvmeSubQueue,
    pub comp_queue: NvmeCompQueue,
    /// Command ID -> awaiting request, for exactly the outstanding commands.
    pub pending: PendingTable,
    /// Next command identifier to hand out; monotonic modulo the queue length.
    pub c_id_counter: u16,
    /// Contents of the PRP-list page of each command slot.
    pub prp_lists: Vec<Vec<u64>>,
    /// Physical base of the PRP-list region; slot `i`'s page sits at
    /// `prp_base + i * PAGE_SIZE`.
    pub prp_base: u64,
    /// Namespace the pair issues I/O against.
    pub nsid: u32,
    /// Bytes per logical block of that namespace.
    pub block_size: u64,
}

impl NvmeQueuePair {
    /// Ring length shared by the two queues.
    pub open spec fn qlen(self) -> int {
        self.sub_queue.len as int
    }

    /// Structural well-formedness of the pair.
    pub open spec fn wf(self) -> bool {
        &&& self.sub_queue.inv()
        &&& self.comp_queue.inv()
        &&& self.comp_queue.len == self.sub_queue.len
        &&& self.pending.inv()
        &&& self.pending.slots.len() == self.qlen()
        &&& self.c_id_counter < self.qlen()
        &&& self.prp_lists.len() == self.qlen()
        &&& self.prp_base % (PAGE_SIZE as u64) == 0
        &&& self.prp_base + self.qlen() * PAGE_SIZE <= u64::MAX
        &&& 512 <= self.block_size <= PAGE_SIZE
        &&& PAGE_SIZE as u64 % self.block_size == 0
    }

    /// The pending table mirrors the submission ring: one entry per command
    /// the device owes a completion for.
    pub open spec fn accounting(self) -> bool {
        self.pending.count == self.sub_queue.outstanding()
    }

    /// Physical address of the PRP-list page of command slot `c`.
    pub open spec fn spec_list_slot_phys(self, c: u16) -> int {
        self.prp_base + c * PAGE_SIZE
    }

    /// The command identifier the `k`-th submission of a batch receives.
    pub open spec fn spec_cid(self, k: int) -> u16 {
        (((self.c_id_counter as int) + k) % self.qlen()) as u16
    }

    /// A fresh queue pair: empty rings pinned at `sq_phys` and `cq_phys`, an
    /// empty pending table, command identifiers starting at zero, and an empty
    /// PRP-list region pinned at `prp_base`.
    pub fn new(
        id: u16,
        len: usize,
        sq_doorbell: usize,
        cq_doorbell: usize,
        sq_phys: usize,
        cq_phys: usize,
        prp_base: u64,
        nsid: u32,
        block_size: u64,
    ) -> (r: Result<NvmeQueuePair, NvmeError>)
        requires
            1 <= len <= QUEUE_LENGTH,
            prp_base % (PAGE_SIZE as u64) == 0,
            prp_base + len * PAGE_SIZE <= u64::MAX,
            512 <= block_size <= PAGE_SIZE,
            PAGE_SIZE as u64 % block_size == 0,
        ensures
            r is Ok,
            r matches Ok(qp) ==> {
                &&& qp.wf()
                &&& qp.accounting()
                &&& qp.id == id
                &&& qp.qlen() == len
                &&& qp.sub_queue.head == 0
                &&& qp.sub_queue.tail == 0
                &&& qp.sub_queue.db_tail == 0
                &&& qp.sub_queue.doorbell == sq_doorbell
                &&& qp.sub_queue.phys == sq_phys
                &&& qp.comp_queue.head == 0
                &&& qp.comp_queue.phase == true
                &&& qp.comp_queue.doorbell == cq_doorbell
                &&& qp.comp_queue.phys == cq_phys
                &&& qp.pending.count == 0
                &&& forall|c: u16| !qp.pending.spec_contains(c)
                &&& qp.c_id_counter == 0
                &&& qp.prp_base == prp_base
                &&& qp.nsid == nsid
                &&& qp.block_size == block_size
            },
    {
        let sub_queue = match NvmeSubQueue::new(len, sq_doorbell, sq_phys) {
            Ok(q) => q,
            Err(e) => {
                return Err(e);
            },
        };
        let comp_queue = match NvmeCompQueue::new(len, cq_doorbell, cq_phys) {
            Ok(q) => q,
            Err(e) => {
                return Err(e);
            },
        };
        let pending = PendingTable::new(len);
        let mut prp_lists: Vec<Vec<u64>> = Vec::new();
        let mut i: usize = 0;
        while i < len
            invariant
                i <= len,
                prp_lists.len() == i,
            decreases len - i,
        {
            prp_lists.push(Vec::new());
            i = i + 1;
        }
        Ok(
            NvmeQueuePair {
                id,
                sub_queue,
                comp_queue,
                pending,
                c_id_counter: 0,
                prp_lists,
                prp_base,
                nsid,
                block_size,
            },
        )
    }

    /// The second PRP entry of the `k`-th chunk's command with identifier
    /// index `cidx`: zero within one page, the second page address for a
    /// two-page transfer, and the command slot's PRP-list page for anything
    /// longer.
    pub open spec fn spec_chunk_prp2_at(self, data: DmaSlice, k: int, cidx: int) -> int {
        let cphys = spec_chunk_phys(data.phys as int, k);
        let clen = spec_chunk_len(data.len as int, k);
        let np = spec_pages_spanned(cphys, clen);
        if np <= 1 {
            0int
        } else if np == 2 {
            spec_page_addr(cphys, 1)
        } else {
            self.spec_list_slot_phys(self.spec_cid(cidx))
        }
    }

    /// Contents of the PRP-list page the `k`-th chunk's command uses: the
    /// addresses of its pages two through last, or nothing when no list page
    /// is needed.
    pub open spec fn spec_chunk_list(self, data: DmaSlice, k: int) -> Seq<u64> {
        let cphys = spec_chunk_phys(data.phys as int, k);
        let clen = spec_chunk_len(data.len as int, k);
        let np = spec_pages_spanned(cphys, clen);
        if np > 2 {
            Seq::new((np - 1) as nat, |j: int| spec_page_addr(cphys, j + 1) as u64)
        } else {
            Seq::empty()
        }
    }

    /// The command word of the `k`-th chunk of one buffer, when the command
    /// identifier comes `cidx` steps after the counter: batches over several
    /// buffers keep one identifier sequence across the whole batch.
    pub open spec fn spec_chunk_cmd_at(
        self,
        data: DmaSlice,
        lba: u64,
        write: bool,
        k: int,
        cidx: int,
    ) -> NvmeCommand {
        spec_io_command(
            write,
            self.spec_cid(cidx),
            self.nsid,
            (lba + k * ((PRP_CHUNK_SIZE as int) / (self.block_size as int))) as u64,
            (spec_chunk_len(data.len as int, k) / (self.block_size as int)) as u64,
            spec_chunk_phys(data.phys as int, k) as u64,
            self.spec_chunk_prp2_at(data, k, cidx) as u64,
        )
    }

    /// The command word the `k`-th chunk of a batch turns into.
    pub open spec fn spec_chunk_cmd(
        self,
        data: DmaSlice,
        lba: u64,
        write: bool,
        k: int,
    ) -> NvmeCommand {
        self.spec_chunk_cmd_at(data, lba, write, k, k)
    }

    /// How many commands a call to `submit_async` on `data` places.
    pub open spec fn spec_submit_m(self, data: DmaSlice) -> int {
        spec_submit_count(
            self.pending,
            self.c_id_counter as int,
            self.sub_queue.free_slots(),
            spec_num_chunks(data.len as int),
            self.qlen(),
        )
    }

    /// Cuts `data` into chunks that each fit one PRP window, appends one I/O
    /// command per chunk to the submission ring, and hands out one fresh
    /// command identifier per command. Stops early — returning the prefix
    /// actually reserved — when the ring fills or when the next command
    /// identifier still has an outstanding command; the caller retries the
    /// remainder. Returns the last reserved tail (`None` when nothing was
    /// placed) and the identifiers, in submission order. The doorbell is not
    /// written: the caller registers the identifiers in the pending table
    /// first and then publishes the tail, preserving the insert-before-ring
    /// order.
    #[verifier::loop_isolation(false)]
    #[verifier::rlimit(100)]
    pub fn submit_async(&mut self, data: DmaSlice, lba: u64, write: bool) -> (r: (
        Option<usize>,
        Vec<u16>,
    ))
        requires
            old(self).wf(),
            data.len as u64 % old(self).block_size == 0,
            data.phys + data.len <= u64::MAX,
            lba + data.len <= u64::MAX,
            data.len + PRP_CHUNK_SIZE <= usize::MAX,
        ensures
            final(self).wf(),
            r.1@.len() == old(self).spec_submit_m(data),
            forall|k: int|
                0 <= k < r.1@.len() ==> r.1@[k] == old(self).spec_cid(k) && !old(
                    self,
                ).pending.spec_contains(#[trigger] r.1@[k]),
            forall|j: int, k: int| 0 <= j < k < r.1@.len() ==> r.1@[j] != r.1@[k],
            final(self).pending == old(self).pending,
            final(self).comp_queue == old(self).comp_queue,
            final(self).id == old(self).id,
            final(self).prp_base == old(self).prp_base,
            final(self).nsid == old(self).nsid,
            final(self).block_size == old(self).block_size,
            final(self).c_id_counter as int == (old(self).c_id_counter + r.1@.len()) % old(
                self,
            ).qlen(),
            final(self).sub_queue.head == old(self).sub_queue.head,
            final(self).sub_queue.len == old(self).sub_queue.len,
            final(self).sub_queue.doorbell == old(self).sub_queue.doorbell,
            final(self).sub_queue.db_tail == old(self).sub_queue.db_tail,
            final(self).sub_queue.phys == old(self).sub_queue.phys,
            final(self).sub_queue.tail as int == (old(self).sub_queue.tail + r.1@.len()) % old(
                self,
            ).qlen(),
            final(self).sub_queue.outstanding() == old(self).sub_queue.outstanding()
                + r.1@.len(),
            forall|k: int|
                0 <= k < r.1@.len() ==> final(self).sub_queue.commands@[(old(self).sub_queue.tail
                    + k) % old(self).qlen()] == #[trigger] old(self).spec_chunk_cmd(
                    data,
                    lba,
                    write,
                    k,
                ),
            forall|i: int|
                0 <= i < QUEUE_LENGTH && !(i < old(self).qlen() && ring_dist(
                    old(self).sub_queue.tail as int,
                    i,
                    old(self).qlen(),
                ) < r.1@.len()) ==> final(self).sub_queue.commands@[i] == old(
                    self,
                ).sub_queue.commands@[i],
            forall|k: int|
                0 <= k < r.1@.len() ==> final(self).prp_lists@[old(self).spec_cid(k) as int]@
                    == #[trigger] old(self).spec_chunk_list(data, k),
            forall|i: int|
                0 <= i < old(self).qlen() && !(ring_dist(
                    old(self).c_id_counter as int,
                    i,
                    old(self).qlen(),
                ) < r.1@.len()) ==> final(self).prp_lists@[i] == old(self).prp_lists@[i],
            r.0 is None <==> r.1@.len() == 0,
            r.1@.len() > 0 ==> r.0 == Some(final(self).sub_queue.tail),
    {
        let ghost p0 = old(self).pending;
        let ghost c0 = old(self).c_id_counter as int;
        let ghost t0 = old(self).sub_queue.tail as int;
        let ghost f0 = old(self).sub_queue.free_slots();
        let ghost ll = old(self).qlen();
        let ghost n_spec = spec_num_chunks(data.len as int);
        let ghost m = old(self).spec_submit_m(data);

        let mut ids: Vec<u16> = Vec::new();
        let mut last_tail: Option<usize> = None;

        if data.len == 0 {
            proof {
                vstd::arithmetic::div_mod::lemma_basic_div(
                    (PRP_CHUNK_SIZE - 1) as int,
                    PRP_CHUNK_SIZE as int,
                );
                vstd::arithmetic::div_mod::lemma_small_mod(c0 as nat, ll as nat);
                vstd::arithmetic::div_mod::lemma_small_mod(t0 as nat, ll as nat);
            }
            return (None, ids);
        }
        let n: usize = (data.len + (PRP_CHUNK_SIZE - 1)) / PRP_CHUNK_SIZE;
        proof {
            lemma_submit_count_bounds(p0, c0, f0, n_spec, ll);
            lemma_chunk_divisible(self.block_size as int);
            crate::prp::lemma_ceil_div(data.len as int, PRP_CHUNK_SIZE as int);
            vstd::arithmetic::div_mod::lemma_small_mod(c0 as nat, ll as nat);
            vstd::arithmetic::div_mod::lemma_small_mod(t0 as nat, ll as nat);
        }
        let mut k: usize = 0;
        let mut more: usize = 1;
        while k < n && more == 1
            invariant
                self.wf(),
                more <= 1,
                more == 0 ==> spec_submit_count(
                    self.pending,
                    self.c_id_counter as int,
                    self.sub_queue.free_slots(),
                    n_spec - k,
                    ll,
                ) == 0,
                k == ids.len(),
                k <= n_spec,
                k <= f0,
                spec_submit_count(p0, c0, f0, n_spec, ll) == k + spec_submit_count(
                    self.pending,
                    self.c_id_counter as int,
                    self.sub_queue.free_slots(),
                    n_spec - k,
                    ll,
                ),
                self.pending == p0,
                self.comp_queue == old(self).comp_queue,
                self.id == old(self).id,
                self.prp_base == old(self).prp_base,
                self.nsid == old(self).nsid,
                self.block_size == old(self).block_size,
                self.c_id_counter as int == (c0 + k) % ll,
                self.sub_queue.head == old(self).sub_queue.head,
                self.sub_queue.len == old(self).sub_queue.len,
                self.sub_queue.doorbell == old(self).sub_queue.doorbell,
                self.sub_queue.db_tail == old(self).sub_queue.db_tail,
                self.sub_queue.phys == old(self).sub_queue.phys,
                self.sub_queue.tail as int == (t0 + k) % ll,
                self.sub_queue.free_slots() == f0 - k,
                forall|j: int|
                    0 <= j < k ==> ids@[j] == old(self).spec_cid(j) && !p0.spec_contains(
                        #[trigger] ids@[j],
                    ),
                forall|j: int|
                    0 <= j < k ==> self.sub_queue.commands@[(t0 + j) % ll] == #[trigger] old(
                        self,
                    ).spec_chunk_cmd(data, lba, write, j),
                forall|i: int|
                    0 <= i < QUEUE_LENGTH && !(i < ll && ring_dist(t0, i, ll) < k)
                        ==> self.sub_queue.commands@[i] == old(self).sub_queue.commands@[i],
                forall|j: int|
                    0 <= j < k ==> self.prp_lists@[old(self).spec_cid(j) as int]@
                        == #[trigger] old(self).spec_chunk_list(data, j),
                forall|i: int|
                    0 <= i < ll && !(ring_dist(c0, i, ll) < k) ==> self.prp_lists@[i] == old(
                        self,
                    ).prp_lists@[i],
                k == 0 <==> last_tail is None,
                k > 0 ==> last_tail == Some(self.sub_queue.tail),
            decreases n - k + more,
        {
            let candidate = self.c_id_counter;
            if self.sub_queue.is_full() {
                more = 0;
                continue;
            }
            if self.pending.contains(candidate) {
                more = 0;
                continue;
            }
            proof {
                assert((n_spec - 1) * PRP_CHUNK_SIZE < data.len as int);
                assert(k * PRP_CHUNK_SIZE <= (n_spec - 1) * PRP_CHUNK_SIZE) by (nonlinear_arith)
                    requires
                        k <= n_spec - 1,
                        PRP_CHUNK_SIZE > 0,
                ;
            }
            let off: usize = k * PRP_CHUNK_SIZE;
            let rem: usize = data.len - off;
            let clen: usize = if rem < PRP_CHUNK_SIZE {
                rem
            } else {
                PRP_CHUNK_SIZE
            };
            let cphys: u64 = data.phys + off as u64;
            proof {
                assert((candidate as int) * PAGE_SIZE <= (ll - 1) * PAGE_SIZE) by (nonlinear_arith)
                    requires
                        candidate as int <= ll - 1,
                        PAGE_SIZE > 0,
                ;
            }
            let slot_phys: u64 = self.prp_base + (candidate as u64) * (PAGE_SIZE as u64);
            proof {
                let bs = self.block_size as int;
                lemma_mul_divisible(k as int, PRP_CHUNK_SIZE as int, bs);
                lemma_div_exact_sub(data.len as int, off as int, bs);
                if (clen as int) < bs {
                    vstd::arithmetic::div_mod::lemma_small_mod(clen as nat, bs as nat);
                    assert(false);
                }
                lemma_div_ge_one(clen as int, bs);
                vstd::arithmetic::div_mod::lemma_div_is_ordered(clen as int, PRP_CHUNK_SIZE as int, bs);
                vstd::arithmetic::div_mod::lemma_div_is_ordered_by_denominator(
                    PRP_CHUNK_SIZE as int,
                    512,
                    bs,
                );
                assert(PRP_CHUNK_SIZE as int / 512 == 4080);
                assert((k as int) * (PRP_CHUNK_SIZE as int / bs) <= (k as int) * (PRP_CHUNK_SIZE as int))
                    by (nonlinear_arith)
                    requires
                        PRP_CHUNK_SIZE as int / bs <= PRP_CHUNK_SIZE as int,
                        k >= 0,
                ;
            }
            let prp = match build_prp(cphys, clen, slot_phys) {
                Ok(p) => p,
                Err(_) => {
                    proof {
                        assert(false);
                    }
                    return (None, Vec::new());
                },
            };
            let prp1 = prp.prp1;
            let prp2 = prp.prp2;
            let blocks: u64 = clen as u64 / self.block_size;
            let chunk_lba: u64 = lba + (k as u64) * ((PRP_CHUNK_SIZE as u64) / self.block_size);
            let entry = if write {
                NvmeCommand::io_write(candidate, self.nsid, chunk_lba, blocks, prp1, prp2)
            } else {
                NvmeCommand::io_read(candidate, self.nsid, chunk_lba, blocks, prp1, prp2)
            };
            self.prp_lists[candidate as usize] = prp.list;
            let tail = self.sub_queue.submit(entry);
            last_tail = Some(tail);
            ids.push(candidate);
            self.c_id_counter = if candidate + 1 < (self.sub_queue.len as u16) {
                candidate + 1
            } else {
                0
            };
            proof {
                lemma_mod_add_one(c0, k as int, ll);
                lemma_mod_add_one(t0, k as int, ll);
                lemma_ring_dist_of_add(t0, k as int, ll);
                lemma_ring_dist_of_add(c0, k as int, ll);
                assert forall|j: int| 0 <= j < k implies old(self).spec_cid(j) != old(
                    self,
                ).spec_cid(k as int) by {
                    lemma_cid_distinct(c0, j, k as int, ll);
                    vstd::arithmetic::div_mod::lemma_mod_bound(c0 + j, ll);
                    vstd::arithmetic::div_mod::lemma_mod_bound(c0 + k, ll);
                }
                assert forall|j: int| 0 <= j < k implies #[trigger] ((t0 + j) % ll) != (t0 + k) % ll by {
                    lemma_cid_distinct(t0, j, k as int, ll);
                }
                assert(entry == old(self).spec_chunk_cmd(data, lba, write, k as int));
                assert(self.prp_lists@[old(self).spec_cid(k as int) as int]@ =~= old(
                    self,
                ).spec_chunk_list(data, k as int));
                assert forall|i: int|
                    0 <= i < QUEUE_LENGTH && !(i < ll && ring_dist(t0, i, ll) < k + 1) implies
                    self.sub_queue.commands@[i] == old(self).sub_queue.commands@[i] by {}
            }
            k = k + 1;
        }
        proof {
            assert forall|j: int, k2: int|
                0 <= j < k2 < ids@.len() implies ids@[j] != ids@[k2] by {
                lemma_cid_distinct(c0, j, k2, ll);
            }
        }
        (last_tail, ids)
    }

    /// Drains up to `budget` fresh completion entries, resolving each against
    /// the pending table, and publishes the new completion head through the
    /// doorbell once at the end. Per accepted completion the pending entry is
    /// removed and one submission slot is freed; an entry whose command
    /// identifier has no pending request — a duplicate or a completion for an
    /// unpublished command — is consumed and discarded. Returns the accepted
    /// `(c_id, status code)` pairs in ring order.
    pub fn poll_multi(&mut self, budget: usize) -> (r: Vec<(u16, u16)>)
        requires
            old(self).wf(),
        ensures
            final(self).wf(),
            final(self).id == old(self).id,
            final(self).c_id_counter == old(self).c_id_counter,
            final(self).prp_lists == old(self).prp_lists,
            final(self).prp_base == old(self).prp_base,
            final(self).nsid == old(self).nsid,
            final(self).block_size == old(self).block_size,
            final(self).sub_queue == (NvmeSubQueue {
                head: final(self).sub_queue.head,
                ..old(self).sub_queue
            }),
            final(self).comp_queue == (NvmeCompQueue {
                db_head: final(self).comp_queue.head,
                ..spec_poll(
                    old(self).pending.slots@,
                    old(self).sub_queue.head as int,
                    old(self).sub_queue.db_tail as int,
                    old(self).qlen(),
                    old(self).comp_queue,
                    budget as int,
                ).3
            }),
            r@ == spec_poll(
                old(self).pending.slots@,
                old(self).sub_queue.head as int,
                old(self).sub_queue.db_tail as int,
                old(self).qlen(),
                old(self).comp_queue,
                budget as int,
            ).0,
            final(self).pending.slots@ == spec_poll(
                old(self).pending.slots@,
                old(self).sub_queue.head as int,
                old(self).sub_queue.db_tail as int,
                old(self).qlen(),
                old(self).comp_queue,
                budget as int,
            ).1,
            final(self).sub_queue.head as int == spec_poll(
                old(self).pending.slots@,
                old(self).sub_queue.head as int,
                old(self).sub_queue.db_tail as int,
                old(self).qlen(),
                old(self).comp_queue,
                budget as int,
            ).2,
            final(self).pending.count == old(self).pending.count - r@.len(),
            final(self).sub_queue.outstanding() == old(self).sub_queue.outstanding() - r@.len(),
    {
        let r = self.poll_rec(budget);
        let h = self.comp_queue.head;
        self.comp_queue.publish_head(h);
        r
    }

    /// The recursive drain behind `poll_multi`; leaves the completion
    /// doorbell untouched.
    fn poll_rec(&mut self, budget: usize) -> (r: Vec<(u16, u16)>)
        requires
            old(self).wf(),
        ensures
            final(self).wf(),
            final(self).id == old(self).id,
            final(self).c_id_counter == old(self).c_id_counter,
            final(self).prp_lists == old(self).prp_lists,
            final(self).prp_base == old(self).prp_base,
            final(self).nsid == old(self).nsid,
            final(self).block_size == old(self).block_size,
            final(self).sub_queue == (NvmeSubQueue {
                head: final(self).sub_queue.head,
                ..old(self).sub_queue
            }),
            r@ == spec_poll(
                old(self).pending.slots@,
                old(self).sub_queue.head as int,
                old(self).sub_queue.db_tail as int,
                old(self).qlen(),
                old(self).comp_queue,
                budget as int,
            ).0,
            final(self).pending.slots@ == spec_poll(
                old(self).pending.slots@,
                old(self).sub_queue.head as int,
                old(self).sub_queue.db_tail as int,
                old(self).qlen(),
                old(self).comp_queue,
                budget as int,
            ).1,
            final(self).sub_queue.head as int == spec_poll(
                old(self).pending.slots@,
                old(self).sub_queue.head as int,
                old(self).sub_queue.db_tail as int,
                old(self).qlen(),
                old(self).comp_queue,
                budget as int,
            ).2,
            final(self).comp_queue == spec_poll(
                old(self).pending.slots@,
                old(self).sub_queue.head as int,
                old(self).sub_queue.db_tail as int,
                old(self).qlen(),
                old(self).comp_queue,
                budget as int,
            ).3,
            final(self).pending.count == old(self).pending.count - r@.len(),
            final(self).sub_queue.outstanding() == old(self).sub_queue.outstanding() - r@.len(),
        decreases budget,
    {
        if budget == 0 {
            return Vec::new();
        }
        let res = self.comp_queue.complete();
        match res {
            None => Vec::new(),
            Some((_, entry, _)) => {
                if self.pending.contains(entry.c_id) && self.sub_queue.head
                    != self.sub_queue.db_tail {
                    let removed = self.pending.remove(entry.c_id);
                    self.sub_queue.advance_head();
                    let mut rest = self.poll_rec(budget - 1);
                    let code = entry.status_code();
                    rest.insert(0, (entry.c_id, code));
                    rest
                } else {
                    self.poll_rec(budget - 1)
                }
            },
        }
    }

    /// Publishes `tail` through the submission doorbell. Only a tail between
    /// the already-published one and the ring tail may be written: the device
    /// is never handed a slot that has not been filled.
    pub fn set_tail(&mut self, tail: u32)
        requires
            old(self).wf(),
            tail < old(self).qlen(),
            ring_dist(
                old(self).sub_queue.head as int,
                old(self).sub_queue.db_tail as int,
                old(self).qlen(),
            ) <= ring_dist(old(self).sub_queue.head as int, tail as int, old(self).qlen()),
            ring_dist(old(self).sub_queue.head as int, tail as int, old(self).qlen()) <= ring_dist(
                old(self).sub_queue.head as int,
                old(self).sub_queue.tail as int,
                old(self).qlen(),
            ),
        ensures
            final(self).wf(),
            final(self).sub_queue.db_tail == tail,
            *final(self) == (NvmeQueuePair { sub_queue: final(self).sub_queue, ..*old(self) }),
            final(self).sub_queue == (NvmeSubQueue {
                db_tail: tail as usize,
                ..old(self).sub_queue
            }),
    {
        self.sub_queue.publish_tail(tail as usize);
    }
}

/// Number of commands a transfer of `len` bytes is cut into.
pub open spec fn spec_num_chunks(len: int) -> int {
    (len + PRP_CHUNK_SIZE - 1) / (PRP_CHUNK_SIZE as int)
}

/// Length of the `k`-th chunk of a transfer of `len` bytes.
pub open spec fn spec_chunk_len(len: int, k: int) -> int {
    if len - k * PRP_CHUNK_SIZE < PRP_CHUNK_SIZE {
        len - k * PRP_CHUNK_SIZE
    } else {
        PRP_CHUNK_SIZE as int
    }
}

/// Physical start address of the `k`-th chunk.
pub open spec fn spec_chunk_phys(phys: int, k: int) -> int {
    phys + k * PRP_CHUNK_SIZE
}

/// How many commands a batch of `n` chunks actually places, walking the
/// command-identifier cursor `c` with `free` submission slots left: the batch
/// stops early when the ring fills or when the next identifier still has an
/// outstanding command.
pub open spec fn spec_submit_count(p: PendingTable, c: int, free: int, n: int, len: int) -> int
    decreases n,
{
    if n <= 0 || free <= 0 || p.spec_contains(c as u16) {
        0
    } else {
        1 + spec_submit_count(p, ring_next(c, len), free - 1, n - 1, len)
    }
}

/// The batch size never exceeds the chunk count or the free slots.
pub proof fn lemma_submit_count_bounds(p: PendingTable, c: int, free: int, n: int, len: int)
    requires
        n >= 0,
    ensures
        0 <= spec_submit_count(p, c, free, n, len),
        spec_submit_count(p, c, free, n, len) <= n,
        free >= 0 ==> spec_submit_count(p, c, free, n, len) <= free,
    decreases n,
{
    if !(n <= 0 || free <= 0 || p.spec_contains(c as u16)) {
        lemma_submit_count_bounds(p, ring_next(c, len), free - 1, n - 1, len);
    }
}

/// Helper induction for `lemma_submit_count_full`: the cursor sits `j` steps
/// into the clear window.
proof fn lemma_submit_count_full_aux(
    p: PendingTable,
    c0: int,
    j: int,
    free: int,
    n: int,
    len: int,
)
    requires
        len >= 1,
        0 <= c0 < len,
        0 <= j,
        0 <= n <= free,
        forall|k: int| j <= k < j + n ==> !p.spec_contains(#[trigger] (((c0 + k) % len) as u16)),
    ensures
        spec_submit_count(p, (c0 + j) % len, free, n, len) == n,
    decreases n,
{
    let c = (c0 + j) % len;
    vstd::arithmetic::div_mod::lemma_mod_bound(c0 + j, len);
    if n > 0 {
        assert(!p.spec_contains((((c0 + j) % len) as u16)));
        lemma_mod_add_one(c0, j, len);
        assert(ring_next(c, len) == (c0 + (j + 1)) % len);
        lemma_submit_count_full_aux(p, c0, j + 1, free - 1, n - 1, len);
    }
}

/// With enough free slots and no identifier collision over the whole window,
/// the batch places every chunk.
pub proof fn lemma_submit_count_full(p: PendingTable, c: int, free: int, n: int, len: int)
    requires
        len >= 1,
        0 <= c < len,
        0 <= n <= free,
        forall|k: int| 0 <= k < n ==> !p.spec_contains(#[trigger] (((c + k) % len) as u16)),
    ensures
        spec_submit_count(p, c, free, n, len) == n,
{
    lemma_submit_count_full_aux(p, c, 0, free, n, len);
    vstd::arithmetic::div_mod::lemma_small_mod(c as nat, len as nat);
    assert((c + 0) % len == c);
}

/// Stepping a cursor that sits at `(c0 + k) % len` lands on `(c0 + k + 1) % len`.
pub proof fn lemma_mod_add_one(c0: int, k: int, len: int)
    requires
        c0 >= 0,
        k >= 0,
        len >= 1,
    ensures
        ring_next((c0 + k) % len, len) == (c0 + k + 1) % len,
{
    let v = (c0 + k) % len;
    let q = (c0 + k) / len;
    vstd::arithmetic::div_mod::lemma_fundamental_div_mod(c0 + k, len);
    vstd::arithmetic::div_mod::lemma_mod_bound(c0 + k, len);
    if v + 1 < len {
        vstd::arithmetic::div_mod::lemma_fundamental_div_mod_converse(c0 + k + 1, len, q, v + 1);
    } else {
        assert(c0 + k + 1 == len * (q + 1) + 0) by (nonlinear_arith)
            requires
                c0 + k == len * q + v,
                v + 1 == len,
        ;
        vstd::arithmetic::div_mod::lemma_fundamental_div_mod_converse(c0 + k + 1, len, q + 1, 0);
    }
}

/// Two distinct offsets within one ring lap give distinct command identifiers.
pub proof fn lemma_cid_distinct(c0: int, j: int, k: int, len: int)
    requires
        0 <= c0,
        0 <= j < k,
        k - j < len,
        len >= 1,
    ensures
        (c0 + j) % len != (c0 + k) % len,
{
    let qj = (c0 + j) / len;
    let rj = (c0 + j) % len;
    let qk = (c0 + k) / len;
    let rk = (c0 + k) % len;
    vstd::arithmetic::div_mod::lemma_fundamental_div_mod(c0 + j, len);
    vstd::arithmetic::div_mod::lemma_fundamental_div_mod(c0 + k, len);
    vstd::arithmetic::div_mod::lemma_mod_bound(c0 + j, len);
    vstd::arithmetic::div_mod::lemma_mod_bound(c0 + k, len);
    if rj == rk {
        assert(k - j == (qk - qj) * len) by (nonlinear_arith)
            requires
                c0 + j == len * qj + rj,
                c0 + k == len * qk + rk,
                rj == rk,
        ;
        assert(false) by (nonlinear_arith)
            requires
                k - j == (qk - qj) * len,
                0 < k - j < len,
        ;
    }
}

/// Walking `k` slots forward from `c0` lands at ring distance `k`.
pub proof fn lemma_ring_dist_of_add(c0: int, k: int, len: int)
    requires
        0 <= c0 < len,
        0 <= k < len,
    ensures
        ring_dist(c0, (c0 + k) % len, len) == k,
        0 <= (c0 + k) % len < len,
{
    if c0 + k < len {
        vstd::arithmetic::div_mod::lemma_small_mod((c0 + k) as nat, len as nat);
    } else {
        vstd::arithmetic::div_mod::lemma_fundamental_div_mod_converse(c0 + k, len, 1, c0 + k - len);
    }
}

/// Reducing the left summand modulo `len` first does not change a sum's
/// residue.
pub proof fn lemma_mod_add_assoc(x: int, j: int, len: int)
    requires
        x >= 0,
        j >= 0,
        len >= 1,
    ensures
        (x % len + j) % len == (x + j) % len,
{
    vstd::arithmetic::div_mod::lemma_mod_bound(x, len);
    vstd::arithmetic::div_mod::lemma_add_mod_noop(x, j, len);
    vstd::arithmetic::div_mod::lemma_add_mod_noop(x % len, j, len);
    vstd::arithmetic::div_mod::lemma_small_mod((x % len) as nat, len as nat);
}

/// A batch that walks the command-identifier cursor `p` steps builds, for its
/// next buffer, exactly the commands of the base state with the identifier
/// index shifted by `p`: only the identifier sequence moves, the chunk
/// geometry does not.
pub proof fn lemma_chunk_cmd_shift(
    qp0: NvmeQueuePair,
    qpi: NvmeQueuePair,
    data: DmaSlice,
    lba: u64,
    write: bool,
    j: int,
    p: int,
)
    requires
        qp0.qlen() >= 1,
        0 <= p,
        0 <= j,
        qpi.c_id_counter as int == (qp0.c_id_counter + p) % qp0.qlen(),
        qpi.sub_queue.len == qp0.sub_queue.len,
        qpi.nsid == qp0.nsid,
        qpi.block_size == qp0.block_size,
        qpi.prp_base == qp0.prp_base,
    ensures
        qpi.spec_chunk_cmd(data, lba, write, j) == qp0.spec_chunk_cmd_at(
            data,
            lba,
            write,
            j,
            p + j,
        ),
{
    lemma_mod_add_assoc(qp0.c_id_counter + p, j, qp0.qlen());
    assert(qpi.spec_cid(j) == qp0.spec_cid(p + j));
}

/// Two cursors reached from the same origin by offsets less than one lap
/// apart sit at ring distance `len - (a - b)` from the later to the earlier.
pub proof fn lemma_ring_dist_mod_pts(t0: int, a: int, b: int, len: int)
    requires
        0 <= t0 < len,
        0 <= b < a,
        a - b < len,
    ensures
        ring_dist((t0 + a) % len, (t0 + b) % len, len) == len - (a - b),
{
    let x = (t0 + a) % len;
    let y = (t0 + b) % len;
    let qa = (t0 + a) / len;
    let qb = (t0 + b) / len;
    let d = a - b;
    vstd::arithmetic::div_mod::lemma_fundamental_div_mod(t0 + a, len);
    vstd::arithmetic::div_mod::lemma_fundamental_div_mod(t0 + b, len);
    vstd::arithmetic::div_mod::lemma_mod_bound(t0 + a, len);
    vstd::arithmetic::div_mod::lemma_mod_bound(t0 + b, len);
    assert(y - x == (qa - qb) * len - d) by (nonlinear_arith)
        requires
            t0 + a == len * qa + x,
            t0 + b == len * qb + y,
            d == a - b,
    ;
    if y >= x {
        assert(qa - qb == 1) by (nonlinear_arith)
            requires
                (qa - qb) * len == y - x + d,
                0 <= y - x < len,
                0 < d < len,
        ;
    } else {
        assert(qa - qb == 0) by (nonlinear_arith)
            requires
                (qa - qb) * len == y - x + d,
                0 < x - y < len,
                0 < d < len,
        ;
    }
}

/// A quantity of whole blocks at least one block long divides to at least one.
pub proof fn lemma_div_ge_one(a: int, d: int)
    requires
        d >= 1,
        a >= d,
    ensures
        a / d >= 1,
{
    vstd::arithmetic::div_mod::lemma_fundamental_div_mod(a, d);
    vstd::arithmetic::div_mod::lemma_mod_bound(a, d);
    let q = a / d;
    if q < 1 {
        assert(d * q <= 0) by (nonlinear_arith)
            requires
                q <= 0,
                d >= 1,
        ;
    }
}

/// Subtracting one multiple of `d` from another stays a multiple, and the
/// quotients subtract.
pub proof fn lemma_div_exact_sub(a: int, b: int, d: int)
    requires
        d > 0,
        0 <= b <= a,
        a % d == 0,
        b % d == 0,
    ensures
        (a - b) % d == 0,
        (a - b) / d == a / d - b / d,
{
    vstd::arithmetic::div_mod::lemma_fundamental_div_mod(a, d);
    vstd::arithmetic::div_mod::lemma_fundamental_div_mod(b, d);
    vstd::arithmetic::div_mod::lemma_div_is_ordered(b, a, d);
    assert(a - b == d * (a / d - b / d)) by (nonlinear_arith)
        requires
            a == d * (a / d),
            b == d * (b / d),
    ;
    vstd::arithmetic::div_mod::lemma_fundamental_div_mod_converse(a - b, d, a / d - b / d, 0);
}

/// A nonnegative multiple of a multiple of `d` is a multiple of `d`, and its
/// quotient scales.
pub proof fn lemma_mul_divisible(k: int, c: int, d: int)
    requires
        d > 0,
        k >= 0,
        c >= 0,
        c % d == 0,
    ensures
        (k * c) % d == 0,
        (k * c) / d == k * (c / d),
        k * c >= 0,
{
    vstd::arithmetic::div_mod::lemma_fundamental_div_mod(c, d);
    assert(k * c == d * (k * (c / d)) && k * c >= 0 && k * (c / d) >= 0) by (nonlinear_arith)
        requires
            c == d * (c / d),
            k >= 0,
            c >= 0,
            d > 0,
    ;
    vstd::arithmetic::div_mod::lemma_fundamental_div_mod_converse(k * c, d, k * (c / d), 0);
}

/// The chunk size is a whole number of pages, hence a whole number of blocks
/// for every supported block size.
pub proof fn lemma_chunk_divisible(bs: int)
    requires
        bs > 0,
        (PAGE_SIZE as int) % bs == 0,
    ensures
        (PRP_CHUNK_SIZE as int) % bs == 0,
{
    assert(PRP_CHUNK_SIZE as int == 510 * (PAGE_SIZE as int));
    lemma_mul_divisible(510, PAGE_SIZE as int, bs);
}

/// Whether slot `c` of a pending view is occupied.
pub open spec fn spec_slot_occupied(p: Seq<Option<usize>>, c: u16) -> bool {
    c < p.len() && p[c as int] is Some
}

/// One drain of the completion ring, as `poll_multi` performs it: starting
/// from pending view `p`, submission head `sh`, published tail `db` and
/// completion ring `cq`, consume up to `budget` fresh entries. An entry whose
/// command identifier has a pending request — and whose command was published —
/// is accepted: it is reported with its status code, its pending slot is
/// cleared, and the submission head moves forward. Any other fresh entry is
/// consumed silently. Returns the report list, the new pending view, the new
/// submission head, and the new completion ring state.
pub open spec fn spec_poll(
    p: Seq<Option<usize>>,
    sh: int,
    db: int,
    len: int,
    cq: NvmeCompQueue,
    budget: int,
) -> (Seq<(u16, u16)>, Seq<Option<usize>>, int, NvmeCompQueue)
    decreases budget,
{
    if budget <= 0 || !cq.spec_can_complete() {
        (Seq::empty(), p, sh, cq)
    } else {
        let e = cq.commands[cq.head as int];
        let cq2 = cq.spec_after_complete();
        if spec_slot_occupied(p, e.c_id) && sh != db {
            let rest = spec_poll(
                p.update(e.c_id as int, None),
                ring_next(sh, len),
                db,
                len,
                cq2,
                budget - 1,
            );
            (
                seq![(e.c_id, spec_status_code(e.status))] + rest.0,
                rest.1,
                rest.2,
                rest.3,
            )
        } else {
            spec_poll(p, sh, db, len, cq2, budget - 1)
        }
    }
}

/// Every completion a drain reports was awaited in the pending table the drain
/// started from, no command identifier is reported twice, and afterwards the
/// reported identifiers — and only those — are gone from the table: a
/// duplicate or stray completion is detected and ignored.
pub proof fn lemma_poll_observed(
    p: Seq<Option<usize>>,
    sh: int,
    db: int,
    len: int,
    cq: NvmeCompQueue,
    budget: int,
)
    ensures
        forall|i: int|
            0 <= i < spec_poll(p, sh, db, len, cq, budget).0.len() ==> spec_slot_occupied(
                p,
                (#[trigger] spec_poll(p, sh, db, len, cq, budget).0[i]).0,
            ),
        forall|i: int, j: int|
            0 <= i < j < spec_poll(p, sh, db, len, cq, budget).0.len() ==> (spec_poll(
                p,
                sh,
                db,
                len,
                cq,
                budget,
            ).0[i]).0 != (spec_poll(p, sh, db, len, cq, budget).0[j]).0,
        forall|i: int|
            0 <= i < spec_poll(p, sh, db, len, cq, budget).0.len() ==> !spec_slot_occupied(
                spec_poll(p, sh, db, len, cq, budget).1,
                (#[trigger] spec_poll(p, sh, db, len, cq, budget).0[i]).0,
            ),
        spec_poll(p, sh, db, len, cq, budget).1.len() == p.len(),
        forall|c: u16|
            (forall|i: int|
                0 <= i < spec_poll(p, sh, db, len, cq, budget).0.len() ==> (#[trigger] spec_poll(
                    p,
                    sh,
                    db,
                    len,
                    cq,
                    budget,
                ).0[i]).0 != c) ==> (c < p.len() ==> spec_poll(p, sh, db, len, cq, budget).1[
                c as int] == p[c as int]),
    decreases budget,
{
    let out = spec_poll(p, sh, db, len, cq, budget);
    if budget <= 0 || !cq.spec_can_complete() {
    } else {
        let e = cq.commands[cq.head as int];
        let cq2 = cq.spec_after_complete();
        if spec_slot_occupied(p, e.c_id) && sh != db {
            let p2 = p.update(e.c_id as int, None);
            lemma_poll_observed(p2, ring_next(sh, len), db, len, cq2, budget - 1);
            let rest = spec_poll(p2, ring_next(sh, len), db, len, cq2, budget - 1);
            assert forall|i: int| 0 <= i < out.0.len() implies spec_slot_occupied(
                p,
                (#[trigger] out.0[i]).0,
            ) by {
                if i > 0 {
                    assert(out.0[i] == rest.0[i - 1]);
                    assert(spec_slot_occupied(p2, (rest.0[i - 1]).0));
                }
            }
            assert forall|i: int| 0 <= i < out.0.len() implies !spec_slot_occupied(
                out.1,
                (#[trigger] out.0[i]).0,
            ) by {
                if i > 0 {
                    assert(out.0[i] == rest.0[i - 1]);
                } else {
                    assert(!spec_slot_occupied(p2, e.c_id));
                    assert forall|ii: int|
                        0 <= ii < rest.0.len() implies (#[trigger] rest.0[ii]).0 != e.c_id by {
                        assert(spec_slot_occupied(p2, (rest.0[ii]).0));
                    }
                    assert(out.1.len() == p2.len() && out.1[e.c_id as int] == p2[e.c_id as int]);
                }
            }
            assert forall|i: int, j: int|
                0 <= i < j < out.0.len() implies (out.0[i]).0 != (out.0[j]).0 by {
                if i > 0 {
                    assert(out.0[i] == rest.0[i - 1] && out.0[j] == rest.0[j - 1]);
                } else {
                    assert(out.0[j] == rest.0[j - 1]);
                    assert(spec_slot_occupied(p2, (rest.0[j - 1]).0));
                    assert(!spec_slot_occupied(p2, e.c_id));
                }
            }
            assert forall|c: u16|
                (forall|i: int| 0 <= i < out.0.len() ==> (#[trigger] out.0[i]).0 != c) implies (c
                < p.len() ==> out.1[c as int] == p[c as int]) by {
                assert((out.0[0]).0 == e.c_id);
                assert(c != e.c_id);
                assert forall|ii: int| 0 <= ii < rest.0.len() implies (#[trigger] rest.0[ii]).0
                    != c by {
                    assert(out.0[ii + 1] == rest.0[ii]);
                }
                if c < p.len() {
                    assert(rest.1[c as int] == p2[c as int]);
                }
            }
        } else {
            lemma_poll_observed(p, sh, db, len, cq2, budget - 1);
        }
    }
}

/// The pending-table size and the free submission slots of a well-formed,
/// correctly accounted queue pair always add up to one less than the queue
/// length: the ring keeps one slot unusable to tell full from empty, and every
/// other consumed slot has exactly one awaiting request.
pub proof fn lemma_queue_accounting(qp: NvmeQueuePair)
    requires
        qp.wf(),
        qp.accounting(),
    ensures
        qp.pending.count + qp.sub_queue.free_slots() == qp.qlen() - 1,
{
}

} // verus!
