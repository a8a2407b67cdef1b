use vstd::prelude::*;

use crate::cmd::NvmeCommand;
use crate::memory::{DmaSlice, HUGE_PAGE_SIZE, PAGE_SIZE};
use crate::nvme_future::{Request, State};
use crate::prp::PRP_CHUNK_SIZE;
use crate::queue_pair::{spec_num_chunks, spec_poll, NvmeQueuePair};
use crate::queues::QUEUE_LENGTH;
use crate::{NvmeError, NvmeNamespace, NvmeStats};

verus! {

/// Doorbell registers start at this byte offset within BAR0.
pub const DOORBELL_BASE: usize = 0x1000;

/// DMA bytes each queue pair claims from the region handed to `Driver::new`:
/// one huge page per ring and the PRP-list region, one page per command slot.
pub const QP_DMA_STRIDE: usize = 4 * HUGE_PAGE_SIZE;

/// The PCI class word of an NVMe controller: class 0x01 (mass storage),
/// subclass 0x08 (NVM express), read from the upper half of the class dword.
pub const NVME_CLASS_CODE: u32 = 0x0108;

/// Whether the class dword read from PCI configuration space offset 8 names a
/// mass-storage device of the NVM express subclass.
pub fn is_nvme_class(class_dword: u32) -> (r: bool)
    ensures
        r == (class_dword >> 16u32 == NVME_CLASS_CODE),
{
    (class_dword >> 16) == NVME_CLASS_CODE
}

/// The class check of device bring-up: accepts exactly the NVMe class dwords
/// and refuses everything else with `NotNvme`.
pub fn check_nvme_class(class_dword: u32) -> (r: Result<(), NvmeError>)
    ensures
        r is Ok <==> class_dword >> 16u32 == NVME_CLASS_CODE,
        r is Err ==> r == Err::<(), NvmeError>(NvmeError::NotNvme),
{
    if is_nvme_class(class_dword) {
        Ok(())
    } else {
        Err(NvmeError::NotNvme)
    }
}

/// Addition modulo 2^64, for the monotonically growing counters.
pub open spec fn spec_wrap_add64(x: u64, y: u64) -> u64 {
    if x + y > u64::MAX {
        (x + y - 0x1_0000_0000_0000_0000) as u64
    } else {
        (x + y) as u64
    }
}

/// Adds modulo 2^64.
pub fn wrap_add64(x: u64, y: u64) -> (r: u64)
    ensures
        r == spec_wrap_add64(x, y),
{
    if y <= u64::MAX - x {
        x + y
    } else {
        y - (u64::MAX - x) - 1
    }
}

/// Total number of commands the buffers from index `i` on turn into.
pub open spec fn spec_total_chunks_from(datas: Seq<DmaSlice>, i: int) -> int
    decreases datas.len() - i,
{
    if i < 0 || i >= datas.len() {
        0
    } else {
        spec_num_chunks(datas[i].len as int) + spec_total_chunks_from(datas, i + 1)
    }
}

/// Chunk counts are never negative.
pub proof fn lemma_total_chunks_nonneg(datas: Seq<DmaSlice>, i: int)
    ensures
        spec_total_chunks_from(datas, i) >= 0,
        0 <= i < datas.len() ==> spec_num_chunks(datas[i].len as int)
            <= spec_total_chunks_from(datas, i),
    decreases datas.len() - i,
{
    if 0 <= i < datas.len() {
        lemma_total_chunks_nonneg(datas, i + 1);
        vstd::arithmetic::div_mod::lemma_div_is_ordered(
            0,
            datas[i].len + PRP_CHUNK_SIZE - 1,
            PRP_CHUNK_SIZE as int,
        );
        vstd::arithmetic::div_mod::lemma_basic_div(0, PRP_CHUNK_SIZE as int);
    }
}

/// A single buffer's chunk count is never negative.
pub proof fn lemma_num_chunks_nonneg(len: int)
    requires
        len >= 0,
    ensures
        spec_num_chunks(len) >= 0,
{
    vstd::arithmetic::div_mod::lemma_div_is_ordered(0, len + PRP_CHUNK_SIZE - 1, PRP_CHUNK_SIZE as int);
    vstd::arithmetic::div_mod::lemma_basic_div(0, PRP_CHUNK_SIZE as int);
}

/// Later suffixes of a batch hold no more chunks than earlier ones.
pub proof fn lemma_total_chunks_mono(datas: Seq<DmaSlice>, x: int, y: int)
    requires
        0 <= x <= y,
    ensures
        spec_total_chunks_from(datas, x) >= spec_total_chunks_from(datas, y),
    decreases y - x,
{
    if x < y {
        lemma_total_chunks_mono(datas, x + 1, y);
        if x < datas.len() {
            lemma_num_chunks_nonneg(datas[x].len as int);
        }
    }
}

/// One batch step preserves and extends the placed-command map: after buffer
/// `i` is submitted on top of `placed` commands already placed, every buffer
/// up to and including `i` has its commands in the consumed window, in the
/// canonical form of the batch's starting state.
proof fn lemma_batch_contents_step(
    qp0: NvmeQueuePair,
    cur: NvmeQueuePair,
    mid: NvmeQueuePair,
    datas: Seq<DmaSlice>,
    lbas: Seq<u64>,
    write: bool,
    i: int,
    placed: int,
    mi: int,
)
    requires
        1 <= qp0.qlen() <= QUEUE_LENGTH,
        qp0.sub_queue.tail < qp0.qlen(),
        0 <= i < datas.len(),
        lbas.len() == datas.len(),
        placed == spec_prefix_chunks(datas, i),
        mi == spec_num_chunks(datas[i].len as int),
        0 <= placed,
        0 <= mi,
        placed + mi <= qp0.qlen() - 1,
        cur.c_id_counter as int == (qp0.c_id_counter + placed) % qp0.qlen(),
        cur.sub_queue.tail as int == (qp0.sub_queue.tail + placed) % qp0.qlen(),
        cur.sub_queue.len == qp0.sub_queue.len,
        cur.nsid == qp0.nsid,
        cur.block_size == qp0.block_size,
        cur.prp_base == qp0.prp_base,
        mid.sub_queue.commands.len() == QUEUE_LENGTH,
        forall|j: int|
            0 <= j < mi ==> mid.sub_queue.commands@[(cur.sub_queue.tail + j) % qp0.qlen()]
                == #[trigger] cur.spec_chunk_cmd(datas[i], lbas[i], write, j),
        forall|idx: int|
            0 <= idx < QUEUE_LENGTH && !(idx < qp0.qlen() && crate::queues::ring_dist(
                cur.sub_queue.tail as int,
                idx,
                qp0.qlen(),
            ) < mi) ==> mid.sub_queue.commands@[idx] == cur.sub_queue.commands@[idx],
        forall|ii: int, j: int|
            0 <= ii < i && 0 <= j < spec_num_chunks(datas[ii].len as int)
                ==> cur.sub_queue.commands@[(qp0.sub_queue.tail + spec_prefix_chunks(datas, ii)
                + j) % qp0.qlen()] == #[trigger] qp0.spec_chunk_cmd_at(
                datas[ii],
                lbas[ii],
                write,
                j,
                spec_prefix_chunks(datas, ii) + j,
            ),
    ensures
        forall|ii: int, j: int|
            0 <= ii < i + 1 && 0 <= j < spec_num_chunks(datas[ii].len as int)
                ==> mid.sub_queue.commands@[(qp0.sub_queue.tail + spec_prefix_chunks(datas, ii)
                + j) % qp0.qlen()] == #[trigger] qp0.spec_chunk_cmd_at(
                datas[ii],
                lbas[ii],
                write,
                j,
                spec_prefix_chunks(datas, ii) + j,
            ),
{
    let ll = qp0.qlen();
    let t0 = qp0.sub_queue.tail as int;
    assert forall|ii: int, j: int|
        0 <= ii < i + 1 && 0 <= j < spec_num_chunks(datas[ii].len as int)
            implies mid.sub_queue.commands@[(t0 + spec_prefix_chunks(datas, ii) + j) % ll]
            == #[trigger] qp0.spec_chunk_cmd_at(
            datas[ii],
            lbas[ii],
            write,
            j,
            spec_prefix_chunks(datas, ii) + j,
        ) by {
        if ii == i {
            crate::queue_pair::lemma_mod_add_assoc(t0 + placed, j, ll);
            crate::queue_pair::lemma_chunk_cmd_shift(qp0, cur, datas[i], lbas[i], write, j, placed);
            assert(mid.sub_queue.commands@[((cur.sub_queue.tail + j) % ll)]
                == cur.spec_chunk_cmd(datas[i], lbas[i], write, j));
        } else {
            let f = spec_prefix_chunks(datas, ii) + j;
            lemma_num_chunks_nonneg(datas[ii].len as int);
            lemma_total_chunks_mono(datas, 0, ii);
            lemma_total_chunks_mono(datas, ii + 1, i);
            assert(spec_total_chunks_from(datas, ii) == spec_num_chunks(datas[ii].len as int)
                + spec_total_chunks_from(datas, ii + 1));
            assert(f < spec_prefix_chunks(datas, ii + 1));
            assert(f < placed);
            lemma_total_chunks_nonneg(datas, ii);
            assert(f >= 0);
            let slot = (t0 + f) % ll;
            vstd::arithmetic::div_mod::lemma_mod_bound(t0 + f, ll);
            crate::queue_pair::lemma_ring_dist_mod_pts(t0, placed, f, ll);
            assert(crate::queues::ring_dist(cur.sub_queue.tail as int, slot, ll) == ll - (placed
                - f));
            assert(ll - (placed - f) >= mi);
            assert(mid.sub_queue.commands@[slot] == cur.sub_queue.commands@[slot]);
        }
    }
}

/// Total number of commands the buffers before index `i` turn into.
pub open spec fn spec_prefix_chunks(datas: Seq<DmaSlice>, i: int) -> int {
    spec_total_chunks_from(datas, 0) - spec_total_chunks_from(datas, i)
}

/// A queue pair accepts a submission when its ring has a free slot and its
/// next command identifier is not still outstanding.
pub open spec fn spec_accepts(qp: NvmeQueuePair) -> bool {
    qp.sub_queue.free_slots() > 0 && !qp.pending.spec_contains(qp.c_id_counter)
}

/// Index of the queue pair the round-robin-with-spill policy settles on,
/// probing `hint`, `hint + 1`, ... modulo the pair count, starting at probe
/// `a`; negative when every pair refuses.
pub open spec fn spec_pick_from(qps: Seq<NvmeQueuePair>, hint: int, a: int) -> int
    decreases qps.len() - a,
{
    if a < 0 || a >= qps.len() {
        -1
    } else {
        let q = (hint + a) % (qps.len() as int);
        if spec_accepts(qps[q]) {
            q
        } else {
            spec_pick_from(qps, hint, a + 1)
        }
    }
}

/// The index the spill policy picks is a real index of an accepting pair.
pub proof fn lemma_pick_valid(qps: Seq<NvmeQueuePair>, hint: int, a: int)
    requires
        0 <= a,
    ensures
        spec_pick_from(qps, hint, a) == -1 || (0 <= spec_pick_from(qps, hint, a) < qps.len()
            && spec_accepts(qps[spec_pick_from(qps, hint, a)])),
    decreases qps.len() - a,
{
    if a < qps.len() {
        let q = (hint + a) % (qps.len() as int);
        vstd::arithmetic::div_mod::lemma_mod_bound(hint + a, qps.len() as int);
        if !spec_accepts(qps[q]) {
            lemma_pick_valid(qps, hint, a + 1);
        }
    }
}

/// The driver facade: the I/O queue pairs, the namespace served, counters,
/// and whether `cleanup` already ran.
pub struct Driver {
    pub queue_pairs: Vec<NvmeQueuePair>,
    pub ns: NvmeNamespace,
    pub stats: NvmeStats,
    pub cleaned: bool,
}

impl Driver {
    /// Inputs a read or write call must satisfy: whole blocks, at least one,
    /// and no address or LBA arithmetic can wrap.
    pub open spec fn spec_io_ok(self, data: DmaSlice, lba: u64) -> bool {
        &&& data.len > 0
        &&& data.len as u64 % self.ns.block_size == 0
        &&& data.phys + data.len <= u64::MAX
        &&& lba + data.len <= u64::MAX
        &&& data.len + PRP_CHUNK_SIZE <= usize::MAX
    }

    /// Well-formedness: every pair is well formed, its pending table mirrors
    /// its ring (the accounting invariant), its doorbell is published (no
    /// submitted command is left invisible to the device between calls), and
    /// pairs carry their index-determined identifiers and the namespace's
    /// geometry.
    pub open spec fn wf(self) -> bool {
        &&& self.queue_pairs.len() <= 0xFFFE
        &&& 512 <= self.ns.block_size <= PAGE_SIZE
        &&& PAGE_SIZE as u64 % self.ns.block_size == 0
        &&& forall|i: int|
            0 <= i < self.queue_pairs.len() ==> (#[trigger] self.queue_pairs[i]).wf()
        &&& forall|i: int|
            0 <= i < self.queue_pairs.len() ==> (#[trigger] self.queue_pairs[i]).accounting()
        &&& forall|i: int|
            0 <= i < self.queue_pairs.len() ==> (#[trigger] self.queue_pairs[i]).sub_queue.db_tail
                == self.queue_pairs[i].sub_queue.tail
        &&& forall|i: int|
            0 <= i < self.queue_pairs.len() ==> (#[trigger] self.queue_pairs[i]).id == i + 1
        &&& forall|i: int|
            0 <= i < self.queue_pairs.len() ==> (#[trigger] self.queue_pairs[i]).qlen()
                == QUEUE_LENGTH
        &&& forall|i: int|
            0 <= i < self.queue_pairs.len() ==> (#[trigger] self.queue_pairs[i]).nsid == self.ns.id
        &&& forall|i: int|
            0 <= i < self.queue_pairs.len() ==> (#[trigger] self.queue_pairs[i]).block_size
                == self.ns.block_size
    }

    /// Everything a read or write call does, stated over the pre and post
    /// states: with the driver cleaned up or no pair accepting, nothing
    /// happens and no request is returned. Otherwise the spill policy picks
    /// the first accepting pair from the hint; that pair gains one command per
    /// chunk actually placed — the commands `submit_async` specifies, their
    /// identifiers registered in the pending table before the doorbell is
    /// published — and the call returns one `Submitted` request per command,
    /// carrying the command identifier, its batch position, and the picked
    /// queue. No other pair is touched.
    pub open spec fn spec_rw_post(
        pre: Driver,
        post: Driver,
        q_hint: int,
        data: DmaSlice,
        lba: u64,
        write: bool,
        r: Seq<Request>,
    ) -> bool {
        let n = pre.queue_pairs.len() as int;
        let pick = spec_pick_from(pre.queue_pairs@, q_hint, 0);
        &&& ((pre.cleaned || n == 0 || pick < 0) ==> (r.len() == 0 && post == pre))
        &&& (!(pre.cleaned || n == 0 || pick < 0) ==> {
            let qp0 = pre.queue_pairs[pick];
            let qp1 = post.queue_pairs[pick];
            let m = qp0.spec_submit_m(data);
            &&& r.len() == m
            &&& m >= 1
            &&& forall|k: int|
                0 <= k < m ==> r[k] == (Request {
                    state: State::Submitted,
                    c_id: qp0.spec_cid(k),
                    r_id: k as usize,
                    q_id: pick as usize,
                })
            &&& post.queue_pairs@ == pre.queue_pairs@.update(pick, qp1)
            &&& qp1.sub_queue.tail as int == (qp0.sub_queue.tail + m) % qp0.qlen()
            &&& qp1.sub_queue.db_tail == qp1.sub_queue.tail
            &&& qp1.sub_queue.head == qp0.sub_queue.head
            &&& qp1.c_id_counter as int == (qp0.c_id_counter + m) % qp0.qlen()
            &&& forall|k: int|
                0 <= k < m ==> qp1.sub_queue.commands@[(qp0.sub_queue.tail + k) % qp0.qlen()]
                    == #[trigger] qp0.spec_chunk_cmd(data, lba, write, k)
            &&& forall|k: int|
                0 <= k < m ==> qp1.prp_lists@[qp0.spec_cid(k) as int]@ == #[trigger] qp0.spec_chunk_list(
                    data,
                    k,
                )
            &&& forall|k: int|
                0 <= k < m ==> qp1.pending.spec_contains(#[trigger] qp0.spec_cid(k))
                    && qp1.pending.spec_at(qp0.spec_cid(k)) == k
            &&& qp1.pending.count == qp0.pending.count + m
            &&& qp1.comp_queue == qp0.comp_queue
            &&& post.cleaned == pre.cleaned
            &&& post.ns == pre.ns
            &&& post.stats.submissions == spec_wrap_add64(pre.stats.submissions, m as u64)
            &&& post.stats.completions == pre.stats.completions
        })
    }

    /// Submits one read or write: probes the pairs round-robin from the hint,
    /// places the commands on the first accepting pair, registers the pending
    /// entries, and only then publishes the tail doorbell.
    #[verifier::loop_isolation(false)]
    #[verifier::rlimit(100)]
    #[verifier::spinoff_prover]
    fn submit_rw(&mut self, q_id: usize, data: DmaSlice, lba: u64, write: bool) -> (r: Vec<
        Request,
    >)
        requires
            old(self).wf(),
            old(self).spec_io_ok(data, lba),
            q_id < old(self).queue_pairs.len() || old(self).queue_pairs.len() == 0,
        ensures
            final(self).wf(),
            Driver::spec_rw_post(*old(self), *final(self), q_id as int, data, lba, write, r@),
    {
        let n = self.queue_pairs.len();
        if self.cleaned || n == 0 {
            return Vec::new();
        }
        proof {
            lemma_pick_valid(old(self).queue_pairs@, q_id as int, 0);
        }
        let mut a: usize = 0;
        while a < n
            invariant
                *self == *old(self),
                a <= n,
                spec_pick_from(self.queue_pairs@, q_id as int, 0) == spec_pick_from(
                    self.queue_pairs@,
                    q_id as int,
                    a as int,
                ),
            decreases n - a,
        {
            let q = (q_id + a) % n;
            proof {
                vstd::arithmetic::div_mod::lemma_mod_bound((q_id + a) as int, n as int);
            }
            let full = self.queue_pairs[q].sub_queue.is_full();
            let counter = self.queue_pairs[q].c_id_counter;
            let busy = self.queue_pairs[q].pending.contains(counter);
            if !full && !busy {
                proof {
                    assert(spec_pick_from(self.queue_pairs@, q_id as int, a as int) == q);
                }
                let ghost qp0 = self.queue_pairs@[q as int];
                let (tail, ids) = self.queue_pairs[q].submit_async(data, lba, write);
                proof {
                    crate::prp::lemma_ceil_div(data.len as int, PRP_CHUNK_SIZE as int);
                    assert(spec_num_chunks(data.len as int) >= 1);
                    crate::queue_pair::lemma_submit_count_bounds(
                        qp0.pending,
                        crate::queues::ring_next(qp0.c_id_counter as int, qp0.qlen()),
                        qp0.sub_queue.free_slots() - 1,
                        spec_num_chunks(data.len as int) - 1,
                        qp0.qlen(),
                    );
                    assert(qp0.spec_submit_m(data) >= 1);
                }
                let ghost mid = self.queue_pairs@[q as int];
                let ghost m = qp0.spec_submit_m(data);
                let mut result: Vec<Request> = Vec::new();
                let mut k: usize = 0;
                let count = ids.len();
                while k < count
                    invariant
                        k <= count,
                        result.len() == k,
                        self.queue_pairs.len() == n,
                        self.stats == old(self).stats,
                        self.cleaned == old(self).cleaned,
                        self.ns == old(self).ns,
                        self.queue_pairs@ == old(self).queue_pairs@.update(
                            q as int,
                            self.queue_pairs@[q as int],
                        ),
                        self.queue_pairs@[q as int] == (NvmeQueuePair {
                            pending: self.queue_pairs@[q as int].pending,
                            ..mid
                        }),
                        self.queue_pairs@[q as int].pending.inv(),
                        self.queue_pairs@[q as int].pending.slots.len()
                            == mid.pending.slots.len(),
                        self.queue_pairs@[q as int].pending.count == mid.pending.count + k,
                        forall|j: int|
                            0 <= j < k ==> self.queue_pairs@[q as int].pending.spec_contains(
                                #[trigger] ids@[j],
                            ) && self.queue_pairs@[q as int].pending.spec_at(ids@[j]) == j,
                        forall|c: u16|
                            !mid.pending.spec_contains(c) && (forall|j: int|
                                0 <= j < k ==> c != #[trigger] ids@[j]) ==> !self.queue_pairs@[
                                q as int].pending.spec_contains(c),
                        forall|c: u16|
                            mid.pending.spec_contains(c)
                                ==> self.queue_pairs@[q as int].pending.spec_contains(c),
                        forall|j: int|
                            0 <= j < k ==> result@[j] == (Request {
                                state: State::Submitted,
                                c_id: qp0.spec_cid(j),
                                r_id: j as usize,
                                q_id: q,
                            }),
                    decreases count - k,
                {
                    let c_id = ids[k];
                    proof {
                        vstd::arithmetic::div_mod::lemma_mod_bound(
                            qp0.c_id_counter + k as int,
                            qp0.qlen(),
                        );
                        assert(!mid.pending.spec_contains(c_id));
                        assert forall|j: int| 0 <= j < k implies c_id != #[trigger] ids@[j] by {}
                    }
                    self.queue_pairs[q].pending.insert(c_id, k);
                    result.push(Request::new(c_id, k, q));
                    k = k + 1;
                }
                let t = match tail {
                    Some(t) => t,
                    None => {
                        proof {
                            assert(false);
                        }
                        return result;
                    },
                };
                proof {
                    vstd::arithmetic::div_mod::lemma_mod_bound(
                        qp0.sub_queue.tail + m,
                        qp0.qlen(),
                    );
                }
                self.queue_pairs[q].set_tail(t as u32);
                let delta = count as u64;
                self.stats.submissions = wrap_add64(self.stats.submissions, delta);
                proof {
                    let pre = *old(self);
                    let post = *self;
                    let pick = spec_pick_from(pre.queue_pairs@, q_id as int, 0);
                    assert(pick == q as int);
                    let qp1 = post.queue_pairs@[q as int];
                    assert(result@.len() == m);
                    assert(forall|k: int|
                        0 <= k < m ==> result@[k] == (Request {
                            state: State::Submitted,
                            c_id: qp0.spec_cid(k),
                            r_id: k as usize,
                            q_id: q,
                        }));
                    assert(post.queue_pairs@ =~= pre.queue_pairs@.update(q as int, qp1));
                    assert(qp1.sub_queue.tail as int == (qp0.sub_queue.tail + m) % qp0.qlen());
                    assert(qp1.sub_queue.db_tail == qp1.sub_queue.tail);
                    assert(qp1.sub_queue.head == qp0.sub_queue.head);
                    assert(qp1.c_id_counter as int == (qp0.c_id_counter + m) % qp0.qlen());
                    assert(forall|k: int|
                        0 <= k < m ==> qp1.sub_queue.commands@[(qp0.sub_queue.tail + k)
                            % qp0.qlen()] == #[trigger] qp0.spec_chunk_cmd(data, lba, write, k));
                    assert(forall|k: int|
                        0 <= k < m ==> qp1.prp_lists@[qp0.spec_cid(k) as int]@
                            == #[trigger] qp0.spec_chunk_list(data, k));
                    assert forall|k: int|
                        0 <= k < m implies qp1.pending.spec_contains(#[trigger] qp0.spec_cid(k))
                            && qp1.pending.spec_at(qp0.spec_cid(k)) == k by {
                        assert(ids@[k] == qp0.spec_cid(k));
                        assert(qp1.pending.spec_contains(ids@[k]));
                        assert(qp1.pending.spec_at(ids@[k]) == k);
                    }
                    assert(qp1.pending.count == qp0.pending.count + m);
                    assert(qp1.comp_queue == qp0.comp_queue);
                    assert(count as int == m);
                    assert(delta == m as u64);
                    assert(post.stats.submissions == spec_wrap_add64(
                        pre.stats.submissions,
                        m as u64,
                    ));
                    assert(qp1.wf());
                    assert(qp1.accounting());
                    assert forall|i: int| 0 <= i < post.queue_pairs.len() implies (
                    #[trigger] post.queue_pairs[i]).wf() && post.queue_pairs[i].accounting()
                        && post.queue_pairs[i].sub_queue.db_tail
                        == post.queue_pairs[i].sub_queue.tail && post.queue_pairs[i].id == i + 1
                        && post.queue_pairs[i].qlen() == QUEUE_LENGTH && post.queue_pairs[i].nsid
                        == post.ns.id && post.queue_pairs[i].block_size
                        == post.ns.block_size by {
                        if i != q as int {
                            assert(post.queue_pairs[i] == pre.queue_pairs[i]);
                        } else {
                            assert(post.queue_pairs[i] == qp1);
                            assert(qp1.id == qp0.id);
                            assert(qp1.qlen() == qp0.qlen());
                            assert(qp1.nsid == qp0.nsid);
                            assert(qp1.block_size == qp0.block_size);
                        }
                    }
                    assert(post.wf());
                }
                return result;
            }
            a = a + 1;
        }
        Vec::new()
    }

    /// Brings up the I/O path against an initialized controller: creates
    /// `num_q_pairs` queue pairs of length `QUEUE_LENGTH` with identifiers
    /// starting at 1, carving each pair's rings and PRP-list region out of the
    /// DMA window pinned at `dma_base`, and deriving each pair's doorbell
    /// offsets from the controller's doorbell stride.
    #[verifier::loop_isolation(false)]
    pub fn new(ns: NvmeNamespace, num_q_pairs: usize, dstrd: u8, dma_base: usize) -> (r: Result<
        Driver,
        NvmeError,
    >)
        requires
            num_q_pairs <= 0xFFFE,
            dstrd <= 15,
            512 <= ns.block_size <= PAGE_SIZE,
            PAGE_SIZE as u64 % ns.block_size == 0,
            dma_base % PAGE_SIZE == 0,
            dma_base + num_q_pairs * QP_DMA_STRIDE <= usize::MAX,
            DOORBELL_BASE + (2 * num_q_pairs + 1) * ((4u32 << dstrd) as int) <= usize::MAX,
        ensures
            r is Ok,
            r matches Ok(d) ==> {
                &&& d.wf()
                &&& d.ns == ns
                &&& d.cleaned == false
                &&& d.stats.submissions == 0
                &&& d.stats.completions == 0
                &&& d.queue_pairs.len() == num_q_pairs
                &&& forall|i: int|
                    0 <= i < num_q_pairs ==> {
                        let qp = #[trigger] d.queue_pairs[i];
                        &&& qp.sub_queue.head == 0
                        &&& qp.sub_queue.tail == 0
                        &&& qp.sub_queue.db_tail == 0
                        &&& qp.comp_queue.head == 0
                        &&& qp.comp_queue.phase == true
                        &&& qp.pending.count == 0
                        &&& qp.c_id_counter == 0
                        &&& qp.sub_queue.doorbell == DOORBELL_BASE + (2 * (i + 1)) * ((4u32
                            << dstrd) as int)
                        &&& qp.comp_queue.doorbell == DOORBELL_BASE + (2 * (i + 1) + 1) * ((4u32
                            << dstrd) as int)
                        &&& qp.sub_queue.phys == dma_base + i * QP_DMA_STRIDE
                        &&& qp.comp_queue.phys == dma_base + i * QP_DMA_STRIDE + HUGE_PAGE_SIZE
                        &&& qp.prp_base == dma_base + i * QP_DMA_STRIDE + 2 * HUGE_PAGE_SIZE
                    }
            },
    {
        let stride: u32 = 4u32 << dstrd;
        proof {
            assert(4 <= (4u32 << dstrd) <= 0x20000) by (bit_vector)
                requires
                    dstrd <= 15,
            ;
        }
        let mut queue_pairs: Vec<NvmeQueuePair> = Vec::new();
        let mut i: usize = 0;
        while i < num_q_pairs
            invariant
                i <= num_q_pairs,
                queue_pairs.len() == i,
                forall|j: int|
                    0 <= j < i ==> {
                        let qp = #[trigger] queue_pairs[j];
                        &&& qp.wf()
                        &&& qp.accounting()
                        &&& qp.id == j + 1
                        &&& qp.qlen() == QUEUE_LENGTH
                        &&& qp.nsid == ns.id
                        &&& qp.block_size == ns.block_size
                        &&& qp.sub_queue.head == 0
                        &&& qp.sub_queue.tail == 0
                        &&& qp.sub_queue.db_tail == 0
                        &&& qp.comp_queue.head == 0
                        &&& qp.comp_queue.phase == true
                        &&& qp.pending.count == 0
                        &&& qp.c_id_counter == 0
                        &&& qp.sub_queue.doorbell == DOORBELL_BASE + (2 * (j + 1)) * ((4u32
                            << dstrd) as int)
                        &&& qp.comp_queue.doorbell == DOORBELL_BASE + (2 * (j + 1) + 1) * ((4u32
                            << dstrd) as int)
                        &&& qp.sub_queue.phys == dma_base + j * QP_DMA_STRIDE
                        &&& qp.comp_queue.phys == dma_base + j * QP_DMA_STRIDE + HUGE_PAGE_SIZE
                        &&& qp.prp_base == dma_base + j * QP_DMA_STRIDE + 2 * HUGE_PAGE_SIZE
                    },
            decreases num_q_pairs - i,
        {
            let q: usize = i + 1;
            proof {
                assert((2 * q) * (stride as int) <= (2 * num_q_pairs + 1) * (stride as int)
                    && (2 * q + 1) * (stride as int) <= (2 * num_q_pairs + 1) * (stride as int)
                    && 0 <= (2 * q) * (stride as int)) by (nonlinear_arith)
                    requires
                        q <= num_q_pairs,
                        q >= 1,
                        0 < stride,
                ;
                assert(i * QP_DMA_STRIDE + QP_DMA_STRIDE <= num_q_pairs * QP_DMA_STRIDE)
                    by (nonlinear_arith)
                    requires
                        i + 1 <= num_q_pairs,
                        QP_DMA_STRIDE > 0,
                ;
                crate::queue_pair::lemma_mul_divisible(i as int, QP_DMA_STRIDE as int, PAGE_SIZE as int);
                vstd::arithmetic::div_mod::lemma_mod_adds(
                    dma_base as int,
                    (i * QP_DMA_STRIDE) as int,
                    PAGE_SIZE as int,
                );
            }
            let sq_db: usize = DOORBELL_BASE + (2 * q) * (stride as usize);
            let cq_db: usize = DOORBELL_BASE + (2 * q + 1) * (stride as usize);
            let base: usize = dma_base + i * QP_DMA_STRIDE;
            let sq_phys: usize = base;
            let cq_phys: usize = base + HUGE_PAGE_SIZE;
            let prp_base: u64 = (base + 2 * HUGE_PAGE_SIZE) as u64;
            proof {
                assert((base + 2 * HUGE_PAGE_SIZE) as int % PAGE_SIZE as int == 0) by {
                    crate::queue_pair::lemma_mul_divisible(
                        i as int,
                        QP_DMA_STRIDE as int,
                        PAGE_SIZE as int,
                    );
                    vstd::arithmetic::div_mod::lemma_mod_adds(
                        (dma_base + 2 * HUGE_PAGE_SIZE) as int,
                        (i * QP_DMA_STRIDE) as int,
                        PAGE_SIZE as int,
                    );
                    vstd::arithmetic::div_mod::lemma_mod_adds(
                        dma_base as int,
                        (2 * HUGE_PAGE_SIZE) as int,
                        PAGE_SIZE as int,
                    );
                }
            }
            let qp = match NvmeQueuePair::new(
                q as u16,
                QUEUE_LENGTH,
                sq_db,
                cq_db,
                sq_phys,
                cq_phys,
                prp_base,
                ns.id,
                ns.block_size,
            ) {
                Ok(qp) => qp,
                Err(e) => {
                    return Err(e);
                },
            };
            queue_pairs.push(qp);
            i = i + 1;
        }
        Ok(
            Driver {
                queue_pairs,
                ns,
                stats: NvmeStats { completions: 0, submissions: 0 },
                cleaned: false,
            },
        )
    }

    /// One poller pass over queue pair `q_id`: drains up to `budget`
    /// completions, resolves them against the pending table, publishes the
    /// completion doorbell, and counts the completions. Returns the accepted
    /// `(c_id, status code)` pairs for delivery to the awaiting requests.
    pub fn poll_queue(&mut self, q_id: usize, budget: usize) -> (r: Vec<(u16, u16)>)
        requires
            old(self).wf(),
            q_id < old(self).queue_pairs.len(),
        ensures
            final(self).wf(),
            final(self).queue_pairs@ == old(self).queue_pairs@.update(
                q_id as int,
                final(self).queue_pairs[q_id as int],
            ),
            r@ == spec_poll(
                old(self).queue_pairs[q_id as int].pending.slots@,
                old(self).queue_pairs[q_id as int].sub_queue.head as int,
                old(self).queue_pairs[q_id as int].sub_queue.db_tail as int,
                old(self).queue_pairs[q_id as int].qlen(),
                old(self).queue_pairs[q_id as int].comp_queue,
                budget as int,
            ).0,
            final(self).queue_pairs[q_id as int].pending.slots@ == spec_poll(
                old(self).queue_pairs[q_id as int].pending.slots@,
                old(self).queue_pairs[q_id as int].sub_queue.head as int,
                old(self).queue_pairs[q_id as int].sub_queue.db_tail as int,
                old(self).queue_pairs[q_id as int].qlen(),
                old(self).queue_pairs[q_id as int].comp_queue,
                budget as int,
            ).1,
            final(self).queue_pairs[q_id as int].pending.count == old(
                self,
            ).queue_pairs[q_id as int].pending.count - r@.len(),
            final(self).queue_pairs[q_id as int].sub_queue.outstanding() == old(
                self,
            ).queue_pairs[q_id as int].sub_queue.outstanding() - r@.len(),
            final(self).queue_pairs[q_id as int].sub_queue.tail == old(
                self,
            ).queue_pairs[q_id as int].sub_queue.tail,
            final(self).queue_pairs[q_id as int].c_id_counter == old(
                self,
            ).queue_pairs[q_id as int].c_id_counter,
            final(self).stats.completions == spec_wrap_add64(
                old(self).stats.completions,
                r@.len() as u64,
            ),
            final(self).stats.submissions == old(self).stats.submissions,
            final(self).cleaned == old(self).cleaned,
            final(self).ns == old(self).ns,
    {
        let r = self.queue_pairs[q_id].poll_multi(budget);
        let delta = r.len() as u64;
        self.stats.completions = wrap_add64(self.stats.completions, delta);
        r
    }

    /// Tears the I/O path down. The first call succeeds and marks the driver
    /// cleaned; later calls are accepted no-ops. Once cleaned, `read` and
    /// `write` return no requests, and the caller sends the admin commands of
    /// `admin_delete_commands` to the controller.
    pub fn cleanup(&mut self) -> (r: Result<(), NvmeError>)
        ensures
            r is Ok,
            final(self).cleaned == true,
            *final(self) == (Driver { cleaned: true, ..*old(self) }),
            old(self).cleaned ==> *final(self) == *old(self),
    {
        self.cleaned = true;
        Ok(())
    }

    /// The admin commands `cleanup`'s caller must send: for each pair, in
    /// order, delete its I/O submission queue, then its I/O completion queue.
    /// Admin commands go one at a time, so they all use command identifier 0.
    #[verifier::spinoff_prover]
    pub fn admin_delete_commands(&self) -> (r: Vec<NvmeCommand>)
        requires
            self.wf(),
        ensures
            r@.len() == 2 * self.queue_pairs.len(),
            forall|i: int|
                0 <= i < self.queue_pairs.len() ==> #[trigger] r@[2 * i] == (NvmeCommand {
                    opcode: crate::cmd::OPCODE_ADMIN_DELETE_SQ,
                    c_id: 0,
                    cdw10: (i + 1) as u32,
                    ..crate::cmd::spec_zeroed_command()
                }) && r@[2 * i + 1] == (NvmeCommand {
                    opcode: crate::cmd::OPCODE_ADMIN_DELETE_CQ,
                    c_id: 0,
                    cdw10: (i + 1) as u32,
                    ..crate::cmd::spec_zeroed_command()
                }),
    {
        let mut r: Vec<NvmeCommand> = Vec::new();
        let mut i: usize = 0;
        let n = self.queue_pairs.len();
        while i < n
            invariant
                i <= n,
                n == self.queue_pairs.len(),
                n <= 0xFFFE,
                r@.len() == 2 * i,
                forall|j: int|
                    0 <= j < i ==> #[trigger] r@[2 * j] == (NvmeCommand {
                        opcode: crate::cmd::OPCODE_ADMIN_DELETE_SQ,
                        c_id: 0,
                        cdw10: (j + 1) as u32,
                        ..crate::cmd::spec_zeroed_command()
                    }) && r@[2 * j + 1] == (NvmeCommand {
                        opcode: crate::cmd::OPCODE_ADMIN_DELETE_CQ,
                        c_id: 0,
                        cdw10: (j + 1) as u32,
                        ..crate::cmd::spec_zeroed_command()
                    }),
            decreases n - i,
        {
            let q: u16 = (i + 1) as u16;
            r.push(NvmeCommand::delete_io_submission_queue(0, q));
            r.push(NvmeCommand::delete_io_completion_queue(0, q));
            proof {
                assert(r@[2 * i as int] == (NvmeCommand {
                    opcode: crate::cmd::OPCODE_ADMIN_DELETE_SQ,
                    c_id: 0,
                    cdw10: (i + 1) as u32,
                    ..crate::cmd::spec_zeroed_command()
                }));
                assert(r@[2 * i as int + 1] == (NvmeCommand {
                    opcode: crate::cmd::OPCODE_ADMIN_DELETE_CQ,
                    c_id: 0,
                    cdw10: (i + 1) as u32,
                    ..crate::cmd::spec_zeroed_command()
                }));
            }
            i = i + 1;
        }
        r
    }

    /// Submits an asynchronous read of `data.len` bytes starting at `lba` and
    /// returns one request handle per command placed. The hint names the
    /// preferred queue pair; under contention or back-pressure the call spills
    /// to the next pair, round robin. After `cleanup`, or with every pair
    /// refusing, no request is returned.
    pub fn read(&mut self, q_id: usize, data: DmaSlice, lba: u64) -> (r: Vec<Request>)
        requires
            old(self).wf(),
            old(self).spec_io_ok(data, lba),
            q_id < old(self).queue_pairs.len() || old(self).queue_pairs.len() == 0,
        ensures
            final(self).wf(),
            Driver::spec_rw_post(*old(self), *final(self), q_id as int, data, lba, false, r@),
    {
        self.submit_rw(q_id, data, lba, false)
    }

    /// Everything a batch call does: with the driver cleaned up, nothing.
    /// Otherwise the named pair — no spill — gains the batch's commands, a
    /// prefix of the chunks of all the buffers in order, cut short only by a
    /// full ring or a command-identifier collision; their identifiers are
    /// registered in the pending table, and one doorbell write at the end
    /// publishes them all. One `Submitted` request per command comes back,
    /// numbered through the whole batch. When the pair has room for every
    /// chunk and no identifier in the window is still outstanding, the whole
    /// batch is owed: every chunk is placed.
    pub open spec fn spec_batch_post(
        pre: Driver,
        post: Driver,
        q: int,
        datas: Seq<DmaSlice>,
        lbas: Seq<u64>,
        write: bool,
        r: Seq<Request>,
    ) -> bool {
        let qp0 = pre.queue_pairs[q];
        let qp1 = post.queue_pairs[q];
        let total = spec_total_chunks_from(datas, 0);
        &&& (pre.cleaned ==> r.len() == 0 && post == pre)
        &&& (!pre.cleaned ==> {
            &&& post.queue_pairs@ == pre.queue_pairs@.update(q, qp1)
            &&& r.len() <= total
            &&& r.len() <= qp0.sub_queue.free_slots()
            &&& forall|k: int|
                0 <= k < r.len() ==> r[k] == (Request {
                    state: State::Submitted,
                    c_id: qp0.spec_cid(k),
                    r_id: k as usize,
                    q_id: q as usize,
                })
            &&& qp1.sub_queue.tail as int == (qp0.sub_queue.tail + r.len()) % qp0.qlen()
            &&& qp1.sub_queue.db_tail == qp1.sub_queue.tail
            &&& qp1.sub_queue.head == qp0.sub_queue.head
            &&& qp1.c_id_counter as int == (qp0.c_id_counter + r.len()) % qp0.qlen()
            &&& qp1.pending.count == qp0.pending.count + r.len()
            &&& forall|k: int|
                0 <= k < r.len() ==> qp1.pending.spec_contains(#[trigger] qp0.spec_cid(k))
                    && qp1.pending.spec_at(qp0.spec_cid(k)) == k
            &&& qp1.comp_queue == qp0.comp_queue
            &&& post.cleaned == pre.cleaned
            &&& post.ns == pre.ns
            &&& post.stats.submissions == spec_wrap_add64(pre.stats.submissions, r.len() as u64)
            &&& post.stats.completions == pre.stats.completions
            &&& ((total <= qp0.sub_queue.free_slots() && forall|k: int|
                0 <= k < total ==> !qp0.pending.spec_contains(#[trigger] qp0.spec_cid(k)))
                ==> r.len() == total && (forall|ii: int, j: int|
                0 <= ii < datas.len() && 0 <= j < spec_num_chunks(datas[ii].len as int)
                    ==> qp1.sub_queue.commands@[(qp0.sub_queue.tail + spec_prefix_chunks(datas, ii)
                    + j) % qp0.qlen()] == #[trigger] qp0.spec_chunk_cmd_at(
                    datas[ii],
                    lbas[ii],
                    write,
                    j,
                    spec_prefix_chunks(datas, ii) + j,
                )))
        })
    }

    /// Submits one batch on queue pair `q_id`: every buffer in order, the
    /// pending entries registered, one doorbell write at the end.
    #[verifier::loop_isolation(false)]
    #[verifier::rlimit(100)]
    #[verifier::spinoff_prover]
    fn batch_rw(&mut self, q_id: usize, datas: &Vec<DmaSlice>, lbas: &Vec<u64>, write: bool) -> (r:
        Vec<Request>)
        requires
            old(self).wf(),
            q_id < old(self).queue_pairs.len(),
            datas.len() == lbas.len(),
            forall|i: int|
                0 <= i < datas.len() ==> old(self).spec_io_ok(#[trigger] datas[i], lbas[i]),
        ensures
            final(self).wf(),
            Driver::spec_batch_post(*old(self), *final(self), q_id as int, datas@, lbas@, write, r@),
    {
        let mut result: Vec<Request> = Vec::new();
        if self.cleaned {
            return result;
        }
        let ghost qp0 = self.queue_pairs@[q_id as int];
        let ghost c0 = qp0.c_id_counter as int;
        let ghost t0 = qp0.sub_queue.tail as int;
        let ghost f0 = qp0.sub_queue.free_slots();
        let ghost ll = qp0.qlen();
        let ghost count0 = qp0.pending.count as int;
        let ghost total = spec_total_chunks_from(datas@, 0);
        let ghost hyp = total <= f0 && (forall|k: int|
            0 <= k < total ==> !qp0.pending.spec_contains(#[trigger] qp0.spec_cid(k)));
        proof {
            vstd::arithmetic::div_mod::lemma_small_mod(c0 as nat, ll as nat);
            vstd::arithmetic::div_mod::lemma_small_mod(t0 as nat, ll as nat);
            lemma_total_chunks_nonneg(datas@, 0);
        }
        let mut last_tail: Option<usize> = None;
        let mut placed: usize = 0;
        let mut i: usize = 0;
        let items = datas.len();
        while i < items
            invariant
                i <= items,
                placed == result.len(),
                placed <= f0,
                self.queue_pairs.len() == old(self).queue_pairs.len(),
                self.stats == old(self).stats,
                self.cleaned == old(self).cleaned,
                self.ns == old(self).ns,
                self.queue_pairs@ == old(self).queue_pairs@.update(
                    q_id as int,
                    self.queue_pairs@[q_id as int],
                ),
                self.queue_pairs@[q_id as int].wf(),
                self.queue_pairs@[q_id as int].id == qp0.id,
                self.queue_pairs@[q_id as int].comp_queue == qp0.comp_queue,
                self.queue_pairs@[q_id as int].prp_base == qp0.prp_base,
                self.queue_pairs@[q_id as int].nsid == qp0.nsid,
                self.queue_pairs@[q_id as int].block_size == qp0.block_size,
                self.queue_pairs@[q_id as int].sub_queue.head == qp0.sub_queue.head,
                self.queue_pairs@[q_id as int].sub_queue.len == qp0.sub_queue.len,
                self.queue_pairs@[q_id as int].sub_queue.doorbell == qp0.sub_queue.doorbell,
                self.queue_pairs@[q_id as int].sub_queue.db_tail == qp0.sub_queue.db_tail,
                self.queue_pairs@[q_id as int].sub_queue.phys == qp0.sub_queue.phys,
                self.queue_pairs@[q_id as int].sub_queue.tail as int == (t0 + placed) % ll,
                self.queue_pairs@[q_id as int].sub_queue.free_slots() == f0 - placed,
                self.queue_pairs@[q_id as int].c_id_counter as int == (c0 + placed) % ll,
                self.queue_pairs@[q_id as int].pending.count == count0 + placed,
                forall|x: int|
                    0 <= x < placed ==> self.queue_pairs@[q_id as int].pending.spec_contains(
                        #[trigger] qp0.spec_cid(x),
                    ) && self.queue_pairs@[q_id as int].pending.spec_at(qp0.spec_cid(x)) == x,
                forall|c: u16|
                    qp0.pending.spec_contains(c) ==> self.queue_pairs@[
                        q_id as int].pending.spec_contains(c),
                forall|c: u16|
                    self.queue_pairs@[q_id as int].pending.spec_contains(c)
                        ==> qp0.pending.spec_contains(c) || exists|x: int|
                        0 <= x < placed && c == #[trigger] qp0.spec_cid(x),
                forall|k: int|
                    0 <= k < placed ==> result@[k] == (Request {
                        state: State::Submitted,
                        c_id: qp0.spec_cid(k),
                        r_id: k as usize,
                        q_id,
                    }),
                placed == 0 <==> last_tail is None,
                placed > 0 ==> last_tail == Some(
                    self.queue_pairs@[q_id as int].sub_queue.tail,
                ),
                placed <= total - spec_total_chunks_from(datas@, i as int),
                hyp ==> placed == total - spec_total_chunks_from(datas@, i as int),
                hyp ==> forall|ii: int, j: int|
                    0 <= ii < i && 0 <= j < spec_num_chunks(datas@[ii].len as int)
                        ==> self.queue_pairs@[q_id as int].sub_queue.commands@[(t0
                        + spec_prefix_chunks(datas@, ii) + j) % ll]
                        == #[trigger] qp0.spec_chunk_cmd_at(
                        datas@[ii],
                        lbas@[ii],
                        write,
                        j,
                        spec_prefix_chunks(datas@, ii) + j,
                    ),
            decreases items - i,
        {
            let ghost cur = self.queue_pairs@[q_id as int];
            proof {
                assert(forall|c: u16|
                    qp0.pending.spec_contains(c) ==> cur.pending.spec_contains(c));
                lemma_total_chunks_nonneg(datas@, i as int);
                lemma_total_chunks_nonneg(datas@, i as int + 1);
            }
            let data = datas[i];
            let lba = lbas[i];
            let (tail, ids) = self.queue_pairs[q_id].submit_async(data, lba, write);
            let ghost mid = self.queue_pairs@[q_id as int];
            let ghost mi = cur.spec_submit_m(data);
            let count = ids.len();
            proof {
                crate::queue_pair::lemma_submit_count_bounds(
                    cur.pending,
                    cur.c_id_counter as int,
                    cur.sub_queue.free_slots(),
                    spec_num_chunks(data.len as int),
                    ll,
                );
                assert forall|j: int| 0 <= j < count implies ids@[j] == qp0.spec_cid(
                    placed + j,
                ) by {
                    assert(ids@[j] == cur.spec_cid(j));
                    vstd::arithmetic::div_mod::lemma_small_mod(j as nat, ll as nat);
                    vstd::arithmetic::div_mod::lemma_add_mod_noop(c0 + placed, j, ll);
                }
            }
            let mut k: usize = 0;
            while k < count
                invariant
                    k <= count,
                    result.len() == placed + k,
                    self.queue_pairs.len() == old(self).queue_pairs.len(),
                    self.stats == old(self).stats,
                    self.cleaned == old(self).cleaned,
                    self.ns == old(self).ns,
                    self.queue_pairs@ == old(self).queue_pairs@.update(
                        q_id as int,
                        self.queue_pairs@[q_id as int],
                    ),
                    self.queue_pairs@[q_id as int] == (NvmeQueuePair {
                        pending: self.queue_pairs@[q_id as int].pending,
                        ..mid
                    }),
                    self.queue_pairs@[q_id as int].pending.inv(),
                    self.queue_pairs@[q_id as int].pending.slots.len() == mid.pending.slots.len(),
                    self.queue_pairs@[q_id as int].pending.count == count0 + placed + k,
                    forall|x: int|
                        0 <= x < placed + k ==> self.queue_pairs@[
                            q_id as int].pending.spec_contains(#[trigger] qp0.spec_cid(x))
                            && self.queue_pairs@[q_id as int].pending.spec_at(qp0.spec_cid(x))
                            == x,
                    forall|c: u16|
                        qp0.pending.spec_contains(c) ==> self.queue_pairs@[
                            q_id as int].pending.spec_contains(c),
                    forall|c: u16|
                        self.queue_pairs@[q_id as int].pending.spec_contains(c)
                            ==> qp0.pending.spec_contains(c) || exists|x: int|
                            0 <= x < placed + k && c == #[trigger] qp0.spec_cid(x),
                    forall|j: int|
                        0 <= j < placed + k ==> result@[j] == (Request {
                            state: State::Submitted,
                            c_id: qp0.spec_cid(j),
                            r_id: j as usize,
                            q_id,
                        }),
                decreases count - k,
            {
                let c_id = ids[k];
                proof {
                    assert(c_id == qp0.spec_cid(placed + k));
                    vstd::arithmetic::div_mod::lemma_mod_bound(c0 + placed + k, ll);
                    assert(!mid.pending.spec_contains(c_id));
                    assert(mid.pending == cur.pending);
                    assert(!qp0.pending.spec_contains(c_id));
                    assert forall|x: int| 0 <= x < placed + k implies c_id != qp0.spec_cid(
                        x,
                    ) by {
                        crate::queue_pair::lemma_cid_distinct(c0, x, placed + k, ll);
                        vstd::arithmetic::div_mod::lemma_mod_bound(c0 + x, ll);
                    }
                    assert(!self.queue_pairs@[q_id as int].pending.spec_contains(c_id));
                }
                self.queue_pairs[q_id].pending.insert(c_id, placed + k);
                result.push(Request::new(c_id, placed + k, q_id));
                k = k + 1;
            }
            if count > 0 {
                let t = match tail {
                    Some(t) => t,
                    None => {
                        proof {
                            assert(false);
                        }
                        return result;
                    },
                };
                last_tail = Some(t);
            }
            proof {
                vstd::arithmetic::div_mod::lemma_add_mod_noop(t0 + placed, mi, ll);
                vstd::arithmetic::div_mod::lemma_add_mod_noop(c0 + placed, mi, ll);
                vstd::arithmetic::div_mod::lemma_small_mod(mi as nat, ll as nat);
                vstd::arithmetic::div_mod::lemma_mod_bound(t0 + placed + mi, ll);
                if hyp {
                    let ni = spec_num_chunks(data.len as int);
                    lemma_total_chunks_nonneg(datas@, i as int + 1);
                    assert(spec_total_chunks_from(datas@, i as int) == ni
                        + spec_total_chunks_from(datas@, i as int + 1));
                    assert forall|j: int|
                        0 <= j < ni implies !cur.pending.spec_contains(
                        #[trigger] (((cur.c_id_counter + j) % ll) as u16),
                    ) by {
                        vstd::arithmetic::div_mod::lemma_small_mod(j as nat, ll as nat);
                        vstd::arithmetic::div_mod::lemma_add_mod_noop(c0 + placed, j, ll);
                        assert((((cur.c_id_counter + j) % ll) as u16) == qp0.spec_cid(
                            placed + j,
                        ));
                        assert(placed + j < total);
                        assert(!qp0.pending.spec_contains(qp0.spec_cid(placed + j)));
                        assert forall|x: int| 0 <= x < placed implies qp0.spec_cid(placed + j)
                            != #[trigger] qp0.spec_cid(x) by {
                            crate::queue_pair::lemma_cid_distinct(c0, x, placed + j, ll);
                            vstd::arithmetic::div_mod::lemma_mod_bound(c0 + x, ll);
                            vstd::arithmetic::div_mod::lemma_mod_bound(c0 + placed + j, ll);
                        }
                    }
                    crate::queue_pair::lemma_submit_count_full(
                        cur.pending,
                        cur.c_id_counter as int,
                        cur.sub_queue.free_slots(),
                        ni,
                        ll,
                    );
                    assert(mi == ni);
                    assert(spec_prefix_chunks(datas@, i as int) == placed);
                    lemma_batch_contents_step(
                        qp0,
                        cur,
                        mid,
                        datas@,
                        lbas@,
                        write,
                        i as int,
                        placed as int,
                        mi,
                    );
                }
            }
            placed = placed + count;
            i = i + 1;
        }
        match last_tail {
            Some(t) => {
                proof {
                    vstd::arithmetic::div_mod::lemma_mod_bound(t0 + placed, ll);
                }
                self.queue_pairs[q_id].set_tail(t as u32);
            },
            None => {},
        }
        let delta = placed as u64;
        self.stats.submissions = wrap_add64(self.stats.submissions, delta);
        proof {
            if hyp {
                assert(spec_total_chunks_from(datas@, items as int) == 0);
            }
            assert(self.queue_pairs@ =~= old(self).queue_pairs@.update(
                q_id as int,
                self.queue_pairs@[q_id as int],
            ));
        }
        result
    }

    /// Submits one read per buffer on queue pair `q_id`, all under one
    /// doorbell write. `datas` and `lbas` pair up; the requests come back
    /// numbered through the whole batch. If the ring fills mid-batch, the
    /// prefix actually placed is returned and the remainder is the caller's to
    /// retry.
    pub fn read_batch(&mut self, q_id: usize, datas: &Vec<DmaSlice>, lbas: &Vec<u64>) -> (r: Vec<
        Request,
    >)
        requires
            old(self).wf(),
            q_id < old(self).queue_pairs.len(),
            datas.len() == lbas.len(),
            forall|i: int|
                0 <= i < datas.len() ==> old(self).spec_io_ok(#[trigger] datas[i], lbas[i]),
        ensures
            final(self).wf(),
            Driver::spec_batch_post(*old(self), *final(self), q_id as int, datas@, lbas@, false, r@),
    {
        self.batch_rw(q_id, datas, lbas, false)
    }

    /// Submits one write per buffer on queue pair `q_id`, all under one
    /// doorbell write; the counterpart of `read_batch`.
    pub fn write_batch(&mut self, q_id: usize, datas: &Vec<DmaSlice>, lbas: &Vec<u64>) -> (r: Vec<
        Request,
    >)
        requires
            old(self).wf(),
            q_id < old(self).queue_pairs.len(),
            datas.len() == lbas.len(),
            forall|i: int|
                0 <= i < datas.len() ==> old(self).spec_io_ok(#[trigger] datas[i], lbas[i]),
        ensures
            final(self).wf(),
            Driver::spec_batch_post(*old(self), *final(self), q_id as int, datas@, lbas@, true, r@),
    {
        self.batch_rw(q_id, datas, lbas, true)
    }

    /// Submits an asynchronous write; the counterpart of `read`.
    pub fn write(&mut self, q_id: usize, data: DmaSlice, lba: u64) -> (r: Vec<Request>)
        requires
            old(self).wf(),
            old(self).spec_io_ok(data, lba),
            q_id < old(self).queue_pairs.len() || old(self).queue_pairs.len() == 0,
        ensures
            final(self).wf(),
            Driver::spec_rw_post(*old(self), *final(self), q_id as int, data, lba, true, r@),
    {
        self.submit_rw(q_id, data, lba, true)
    }
}

} // verus!
