use vstd::prelude::*;

use crate::cmd::{NvmeCommand, OPCODE_IO_READ, OPCODE_IO_WRITE};
use crate::memory::{Dma, DmaSlice, PAGE_SIZE};
use crate::prp::{build_prp, spec_page_addr, spec_pages_spanned, MAX_TRANSFER_SIZE, PRP_CHUNK_SIZE};
use crate::queue_pair::NvmeQueuePair;
use crate::queues::{ring_next, NvmeCompletion};
use crate::NvmeNamespace;

verus! {

/// NVMe generic status: LBA out of range.
pub const STATUS_LBA_OUT_OF_RANGE: u16 = 0x80;

/// NVMe generic status: invalid field in command.
pub const STATUS_INVALID_FIELD: u16 = 0x02;

/// NVMe generic status: invalid command opcode.
pub const STATUS_INVALID_OPCODE: u16 = 0x01;

/// Starting LBA of an I/O command: dword 10 carries the low half, dword 11 the
/// high half.
pub open spec fn spec_slba(cmd: NvmeCommand) -> int {
    cmd.cdw10 + cmd.cdw11 * 0x1_0000_0000
}

/// Number of logical blocks of an I/O command: the low 16 bits of dword 12,
/// zero-based.
pub open spec fn spec_blocks(cmd: NvmeCommand) -> int {
    (cmd.cdw12 % 0x1_0000) + 1
}

/// Transfer length in bytes.
pub open spec fn spec_cmd_len(cmd: NvmeCommand, bs: int) -> int {
    spec_blocks(cmd) * bs
}

/// `dst` with `len` bytes copied in from `src`: byte `dst0 + t` becomes
/// `src[src0 + t]`, everything else is untouched. This is what one DMA
/// transfer does to its target, seen from either side.
pub open spec fn spec_copy_into(
    dst: Seq<u8>,
    src: Seq<u8>,
    dst0: int,
    src0: int,
    len: int,
) -> Seq<u8> {
    Seq::new(dst.len(), |i: int| if dst0 <= i < dst0 + len {
        src[src0 + (i - dst0)]
    } else {
        dst[i]
    })
}

/// The round trip of the block layer: take any byte pattern held in host
/// memory at `src0`, write it to the disk range starting at `dst0` (the byte
/// address of some LBA), then read that disk range back into host memory at
/// `rd0`. The bytes read are exactly the pattern written, whatever the disk
/// and the rest of memory held before.
pub proof fn lemma_write_then_read_round_trip(
    disk: Seq<u8>,
    mem: Seq<u8>,
    dst0: int,
    src0: int,
    rd0: int,
    len: int,
)
    requires
        0 <= src0,
        src0 + len <= mem.len(),
        0 <= dst0,
        dst0 + len <= disk.len(),
        0 <= rd0,
        rd0 + len <= mem.len(),
    ensures
        forall|t: int|
            0 <= t < len ==> spec_copy_into(
                mem,
                spec_copy_into(disk, mem, dst0, src0, len),
                rd0,
                dst0,
                len,
            )[rd0 + t] == #[trigger] mem[src0 + t],
{
}

/// The PRP entries of `cmd` describe, in the canonical contiguous form the
/// queue pair emits, a transfer range that lies entirely inside `mem`: `prp1`
/// points at the range's first byte; for a transfer beyond two pages, `prp2`
/// points at the command slot's PRP-list page at `slot_phys` and the slot
/// holds the addresses of pages two through last.
pub open spec fn spec_prps_ok(
    cmd: NvmeCommand,
    list: Seq<u64>,
    bs: int,
    mem: Dma,
    slot_phys: int,
) -> bool {
    let len = spec_cmd_len(cmd, bs);
    let np = spec_pages_spanned(cmd.prp1 as int, len);
    &&& len < MAX_TRANSFER_SIZE
    &&& mem.phys <= cmd.prp1
    &&& cmd.prp1 + len <= mem.phys + mem.bytes.len()
    &&& cmd.prp2 == if np <= 1 {
        0int
    } else if np == 2 {
        spec_page_addr(cmd.prp1 as int, 1)
    } else {
        slot_phys
    }
    &&& (np > 2 ==> list.len() == np - 1 && forall|j: int|
        0 <= j < np - 1 ==> list[j] == spec_page_addr(cmd.prp1 as int, j + 1))
}

/// The completion status the device model returns for `cmd`: zero on success;
/// `LBA out of range` when the command runs past the namespace; `invalid
/// field` when the command identifier or the PRP entries are unusable;
/// `invalid command opcode` for anything but a read or a write.
pub open spec fn spec_cmd_status(
    cmd: NvmeCommand,
    list: Seq<u64>,
    ns: NvmeNamespace,
    mem: Dma,
    qp: NvmeQueuePair,
) -> u16 {
    if cmd.opcode != OPCODE_IO_READ && cmd.opcode != OPCODE_IO_WRITE {
        STATUS_INVALID_OPCODE
    } else if spec_slba(cmd) + spec_blocks(cmd) > ns.blocks {
        STATUS_LBA_OUT_OF_RANGE
    } else if cmd.c_id >= qp.qlen() || !spec_prps_ok(
        cmd,
        list,
        ns.block_size as int,
        mem,
        qp.spec_list_slot_phys(cmd.c_id),
    ) {
        STATUS_INVALID_FIELD
    } else {
        0
    }
}

/// The device accepts every command a well-formed queue pair emits: a chunk
/// command built over a whole-block buffer that lies inside host memory, for a
/// range within the namespace, decodes back to its chunk's LBA, block count
/// and PRP entries and gets status zero. This closes the loop between the
/// submission path and the device model: what `submit_async` places, the
/// device executes.
pub proof fn lemma_emitted_command_accepted(
    qp: NvmeQueuePair,
    data: DmaSlice,
    lba: u64,
    write: bool,
    k: int,
    cidx: int,
    ns: NvmeNamespace,
    mem: Dma,
)
    requires
        qp.wf(),
        ns.block_size == qp.block_size,
        0 <= k,
        0 <= cidx,
        k < crate::queue_pair::spec_num_chunks(data.len as int),
        data.len as u64 % qp.block_size == 0,
        mem.phys <= data.phys,
        data.phys + data.len <= mem.phys + mem.bytes.len(),
        mem.phys + mem.bytes.len() <= u64::MAX,
        lba + data.len <= u64::MAX,
        lba + (data.len as int) / (qp.block_size as int) <= ns.blocks,
    ensures
        spec_cmd_status(
            qp.spec_chunk_cmd_at(data, lba, write, k, cidx),
            qp.spec_chunk_list(data, k),
            ns,
            mem,
            qp,
        ) == 0,
        spec_slba(qp.spec_chunk_cmd_at(data, lba, write, k, cidx)) == lba + k * ((
        PRP_CHUNK_SIZE as int) / (qp.block_size as int)),
        spec_cmd_len(qp.spec_chunk_cmd_at(data, lba, write, k, cidx), ns.block_size as int)
            == crate::queue_pair::spec_chunk_len(data.len as int, k),
{
    let bs = qp.block_size as int;
    let ll = qp.qlen();
    let cc = PRP_CHUNK_SIZE as int;
    let clen = crate::queue_pair::spec_chunk_len(data.len as int, k);
    let cphys = crate::queue_pair::spec_chunk_phys(data.phys as int, k);
    let cmd = qp.spec_chunk_cmd_at(data, lba, write, k, cidx);

    // The chunk is whole pages except possibly the last, whole blocks always.
    crate::prp::lemma_ceil_div(data.len as int, cc);
    assert((k + 1 - 1) * cc < data.len as int) by (nonlinear_arith)
        requires
            k <= crate::queue_pair::spec_num_chunks(data.len as int) - 1,
            cc > 0,
            (crate::queue_pair::spec_num_chunks(data.len as int) - 1) * cc < data.len as int,
    ;
    assert(k * cc < data.len as int);
    assert(0 < clen <= cc);
    crate::queue_pair::lemma_chunk_divisible(bs);
    crate::queue_pair::lemma_mul_divisible(k, cc, bs);
    crate::queue_pair::lemma_div_exact_sub(data.len as int, k * cc, bs);
    if clen < bs {
        vstd::arithmetic::div_mod::lemma_small_mod(clen as nat, bs as nat);
        assert(false);
    }
    crate::queue_pair::lemma_div_ge_one(clen, bs);
    vstd::arithmetic::div_mod::lemma_div_is_ordered(clen, cc, bs);
    vstd::arithmetic::div_mod::lemma_div_is_ordered_by_denominator(cc, 512, bs);
    assert(cc / 512 == 4080);
    let blocks = clen / bs;
    assert(1 <= blocks <= 0x1_0000);

    // The block count decodes from dword 12.
    vstd::arithmetic::div_mod::lemma_small_mod((blocks - 1) as nat, 0x1_0000nat);
    assert(spec_blocks(cmd) == blocks);

    // The starting LBA decodes from dwords 10 and 11.
    let cl = lba + k * (cc / bs);
    assert(cc / bs <= cc) by {
        vstd::arithmetic::div_mod::lemma_div_is_ordered_by_denominator(cc, 1, bs);
        vstd::arithmetic::div_mod::lemma_div_by_multiple(cc, 1);
    }
    assert(k * (cc / bs) <= k * cc) by (nonlinear_arith)
        requires
            cc / bs <= cc,
            k >= 0,
    ;
    assert(0 <= cl <= u64::MAX);
    vstd::arithmetic::div_mod::lemma_fundamental_div_mod(cl, 0x1_0000_0000);
    vstd::arithmetic::div_mod::lemma_mod_bound(cl, 0x1_0000_0000);
    vstd::arithmetic::div_mod::lemma_div_is_ordered(cl, u64::MAX as int, 0x1_0000_0000);
    assert(u64::MAX as int / 0x1_0000_0000 < 0x1_0000_0000);
    assert(spec_slba(cmd) == cl);

    // The transfer length is the chunk length.
    vstd::arithmetic::div_mod::lemma_fundamental_div_mod(clen, bs);
    assert(spec_cmd_len(cmd, bs) == blocks * bs);
    assert(blocks * bs == clen) by (nonlinear_arith)
        requires
            clen == bs * (clen / bs) + clen % bs,
            clen % bs == 0,
            blocks == clen / bs,
    ;

    // The chunk stays within the namespace.
    crate::queue_pair::lemma_mul_divisible(k, cc / bs, 1);
    assert((k * cc) / bs == k * (cc / bs)) by {
        crate::queue_pair::lemma_mul_divisible(k, cc, bs);
    }
    assert((k * cc + clen) <= data.len as int);
    assert((k * cc + clen) / bs == (k * cc) / bs + clen / bs && (k * cc + clen) % bs == 0) by {
        vstd::arithmetic::div_mod::lemma_fundamental_div_mod(k * cc, bs);
        vstd::arithmetic::div_mod::lemma_fundamental_div_mod(clen, bs);
        assert(k * cc + clen == bs * ((k * cc) / bs + clen / bs)) by (nonlinear_arith)
            requires
                k * cc == bs * ((k * cc) / bs),
                clen == bs * (clen / bs),
        ;
        vstd::arithmetic::div_mod::lemma_fundamental_div_mod_converse(
            k * cc + clen,
            bs,
            (k * cc) / bs + clen / bs,
            0,
        );
    }
    vstd::arithmetic::div_mod::lemma_div_is_ordered(k * cc + clen, data.len as int, bs);
    assert(cl + blocks <= lba + (data.len as int) / bs);
    assert(spec_slba(cmd) + spec_blocks(cmd) <= ns.blocks);

    // The PRP entries are canonical over a range inside host memory.
    assert(cmd.c_id == qp.spec_cid(cidx));
    vstd::arithmetic::div_mod::lemma_mod_bound(qp.c_id_counter + cidx, ll);
    assert(cmd.c_id < ll);
    crate::prp::lemma_pages_spanned_bounds(cphys, clen);
    let np = spec_pages_spanned(cphys, clen);
    assert(cmd.prp1 == cphys);
    assert(clen < MAX_TRANSFER_SIZE);
    assert(cphys + clen <= mem.phys + mem.bytes.len());
    if np >= 2 {
        vstd::arithmetic::div_mod::lemma_mod_bound(cphys, PAGE_SIZE as int);
        assert(spec_page_addr(cphys, 1) <= cphys + PAGE_SIZE);
        assert((np - 1) * PAGE_SIZE < cphys % (PAGE_SIZE as int) + clen);
        assert forall|j: int|
            0 <= j < np - 1 implies 0 <= #[trigger] spec_page_addr(cphys, j + 1) <= cphys
            + clen by {
            assert((j + 1) * PAGE_SIZE <= (np - 1) * PAGE_SIZE) by (nonlinear_arith)
                requires
                    j + 1 <= np - 1,
                    PAGE_SIZE > 0,
            ;
            assert((j + 1) * PAGE_SIZE >= PAGE_SIZE) by (nonlinear_arith)
                requires
                    j >= 0,
                    PAGE_SIZE > 0,
            ;
        }
    }
    assert(qp.spec_list_slot_phys(cmd.c_id) <= qp.prp_base + ll * PAGE_SIZE) by (nonlinear_arith)
        requires
            cmd.c_id < ll,
            PAGE_SIZE > 0,
            qp.spec_list_slot_phys(cmd.c_id) == qp.prp_base + cmd.c_id * PAGE_SIZE,
    ;
    assert(spec_prps_ok(
        cmd,
        qp.spec_chunk_list(data, k),
        bs,
        mem,
        qp.spec_list_slot_phys(cmd.c_id),
    ));
    assert(spec_cmd_status(cmd, qp.spec_chunk_list(data, k), ns, mem, qp) == 0);
}

/// A device model for one queue pair of an NVMe controller with one
/// namespace: a block store, the device's submission fetch cursor, and the
/// device's completion write cursor with its phase. It fetches published
/// commands in order, executes them against the block store and host memory,
/// and posts completion entries with the current phase tag.
pub struct SimController {
    pub disk: Vec<u8>,
    pub ns: NvmeNamespace,
    /// Next submission slot the device fetches from.
    pub sq_fetch: usize,
    /// Next completion slot the device writes to.
    pub cq_tail: usize,
    /// Phase tag the device stamps on new completion entries.
    pub cq_phase: bool,
}

impl SimController {
    pub open spec fn wf(self) -> bool {
        &&& self.disk.len() == self.ns.blocks * self.ns.block_size
        &&& 512 <= self.ns.block_size <= PAGE_SIZE
        &&& self.ns.blocks * self.ns.block_size <= usize::MAX
    }

    /// The device cursors stay on the rings of `qp`.
    pub open spec fn paired(self, qp: NvmeQueuePair) -> bool {
        &&& self.sq_fetch < qp.qlen()
        &&& self.cq_tail < qp.qlen()
    }

    /// A device over a zero-filled block store, with both cursors at the start
    /// of a fresh queue pair and the phase at `true`, matching the host's
    /// expectation for the first lap.
    pub fn new(ns: NvmeNamespace) -> (r: SimController)
        requires
            512 <= ns.block_size <= PAGE_SIZE,
            ns.blocks * ns.block_size <= usize::MAX,
        ensures
            r.wf(),
            r.ns == ns,
            r.sq_fetch == 0,
            r.cq_tail == 0,
            r.cq_phase == true,
            forall|i: int| 0 <= i < r.disk.len() ==> r.disk[i] == 0u8,
    {
        let size = (ns.blocks * ns.block_size) as usize;
        let disk: Vec<u8> = vec![0u8; size];
        SimController { disk, ns, sq_fetch: 0, cq_tail: 0, cq_phase: true }
    }

    /// The completion entry the device posts for `cmd` with status code
    /// `code`: the new submission head, the queue id, the command id, and the
    /// status word carrying the current phase in its lowest bit.
    pub open spec fn spec_completion(self, qp: NvmeQueuePair, cmd: NvmeCommand, code: u16) -> NvmeCompletion {
        NvmeCompletion {
            command_specific: 0,
            _rsvd: 0,
            sq_head: ring_next(self.sq_fetch as int, qp.qlen()) as u16,
            sq_id: qp.id,
            c_id: cmd.c_id,
            status: (2 * code + if self.cq_phase {
                1int
            } else {
                0int
            }) as u16,
        }
    }

    /// Fetches and executes one published command, if any: moves the bytes
    /// between host memory and the block store for a valid read or write,
    /// decides the status code otherwise, and posts the completion entry with
    /// the device's current phase tag. Returns whether a command was consumed.
    #[verifier::loop_isolation(false)]
    #[verifier::rlimit(100)]
    #[verifier::spinoff_prover]
    pub fn execute_one(&mut self, qp: &mut NvmeQueuePair, mem: &mut Dma) -> (r: bool)
        requires
            old(self).wf(),
            old(qp).wf(),
            old(self).paired(*old(qp)),
            old(mem).wf(),
            old(qp).block_size == old(self).ns.block_size,
        ensures
            final(self).wf(),
            final(qp).wf(),
            final(self).paired(*final(qp)),
            final(mem).wf(),
            r <==> old(self).sq_fetch != old(qp).sub_queue.db_tail,
            !r ==> *final(self) == *old(self) && *final(qp) == *old(qp) && *final(mem) == *old(
                mem,
            ),
            r ==> {
                let cmd = old(qp).sub_queue.commands[old(self).sq_fetch as int];
                let list = old(qp).prp_lists[cmd.c_id as int]@;
                let code = spec_cmd_status(cmd, list, old(self).ns, *old(mem), *old(qp));
                let bs = old(self).ns.block_size as int;
                &&& final(self).ns == old(self).ns
                &&& final(self).sq_fetch == ring_next(old(self).sq_fetch as int, old(qp).qlen())
                &&& final(self).cq_tail == ring_next(old(self).cq_tail as int, old(qp).qlen())
                &&& final(self).cq_phase == (if ring_next(old(self).cq_tail as int, old(qp).qlen())
                    == 0 {
                    !old(self).cq_phase
                } else {
                    old(self).cq_phase
                })
                &&& *final(qp) == (NvmeQueuePair { comp_queue: final(qp).comp_queue, ..*old(qp) })
                &&& final(qp).comp_queue == (crate::queues::NvmeCompQueue {
                    commands: final(qp).comp_queue.commands,
                    ..old(qp).comp_queue
                })
                &&& final(qp).comp_queue.commands@ == old(qp).comp_queue.commands@.update(
                    old(self).cq_tail as int,
                    old(self).spec_completion(*old(qp), cmd, code),
                )
                &&& (code == 0 && cmd.opcode == OPCODE_IO_WRITE ==> final(self).disk@
                    == spec_copy_into(
                    old(self).disk@,
                    old(mem).bytes@,
                    spec_slba(cmd) * bs,
                    cmd.prp1 - old(mem).phys,
                    spec_cmd_len(cmd, bs),
                ) && *final(mem) == *old(mem))
                &&& (code == 0 && cmd.opcode == OPCODE_IO_READ ==> final(mem).bytes@
                    == spec_copy_into(
                    old(mem).bytes@,
                    old(self).disk@,
                    cmd.prp1 - old(mem).phys,
                    spec_slba(cmd) * bs,
                    spec_cmd_len(cmd, bs),
                ) && final(mem).phys == old(mem).phys && final(self).disk == old(self).disk)
                &&& (code != 0 ==> final(self).disk == old(self).disk && *final(mem) == *old(mem))
            },
    {
        if self.sq_fetch == qp.sub_queue.db_tail {
            return false;
        }
        let ghost pre_self = *self;
        let ghost pre_qp = *qp;
        let ghost pre_mem = *mem;
        let cmd = qp.sub_queue.commands[self.sq_fetch];
        let bs: u64 = self.ns.block_size;
        let blocks: u64 = (cmd.cdw12 % 0x1_0000) as u64 + 1;
        let slba: u64 = cmd.cdw10 as u64 + (cmd.cdw11 as u64) * 0x1_0000_0000;
        proof {
            assert(blocks <= 0x1_0000);
            assert(512 <= blocks * bs <= 0x1_0000 * 4096) by (nonlinear_arith)
                requires
                    1 <= blocks <= 0x1_0000,
                    512 <= bs <= 4096,
            ;
        }
        let len: u64 = blocks * bs;
        proof {
            assert(len == spec_cmd_len(cmd, bs as int));
            assert(slba == spec_slba(cmd));
        }
        // Decide the status code exactly as `spec_cmd_status` does.
        let code: u16 = if cmd.opcode != OPCODE_IO_READ && cmd.opcode != OPCODE_IO_WRITE {
            STATUS_INVALID_OPCODE
        } else if slba > self.ns.blocks || blocks > self.ns.blocks - slba.min(self.ns.blocks) {
            proof {
                assert(spec_slba(cmd) + spec_blocks(cmd) > self.ns.blocks);
            }
            STATUS_LBA_OUT_OF_RANGE
        } else if !self.prps_canonical(qp, &cmd, mem, len) {
            STATUS_INVALID_FIELD
        } else {
            0
        };
        // Move the bytes of a valid transfer.
        if code == 0 {
            proof {
                assert(spec_slba(cmd) + spec_blocks(cmd) <= self.ns.blocks);
                assert(spec_slba(cmd) * (bs as int) + spec_cmd_len(cmd, bs as int) <= self.ns.blocks
                    * (bs as int)) by (nonlinear_arith)
                    requires
                        spec_slba(cmd) + spec_blocks(cmd) <= self.ns.blocks,
                        spec_cmd_len(cmd, bs as int) == spec_blocks(cmd) * (bs as int),
                        bs > 0,
                        spec_slba(cmd) >= 0,
                        spec_blocks(cmd) >= 1,
                ;
                assert(spec_slba(cmd) * (bs as int) >= 0) by (nonlinear_arith)
                    requires
                        spec_slba(cmd) >= 0,
                        bs > 0,
                ;
            }
            let disk_off: usize = (slba * bs) as usize;
            let mem_off: usize = (cmd.prp1 - mem.phys) as usize;
            let len_u: usize = len as usize;
            if cmd.opcode == OPCODE_IO_WRITE {
                let mut t: usize = 0;
                while t < len_u
                    invariant
                        t <= len_u,
                        self.disk.len() == pre_self.disk.len(),
                        self.ns == pre_self.ns,
                        self.sq_fetch == pre_self.sq_fetch,
                        self.cq_tail == pre_self.cq_tail,
                        self.cq_phase == pre_self.cq_phase,
                        forall|i: int|
                            0 <= i < self.disk.len() && !(disk_off <= i < disk_off + t)
                                ==> self.disk@[i] == pre_self.disk@[i],
                        forall|i: int|
                            disk_off <= i < disk_off + t ==> self.disk@[i] == pre_mem.bytes@[
                                mem_off + (i - disk_off)],
                    decreases len_u - t,
                {
                    let b = mem.bytes[mem_off + t];
                    self.disk[disk_off + t] = b;
                    t = t + 1;
                }
                proof {
                    assert(self.disk@ =~= spec_copy_into(
                        pre_self.disk@,
                        pre_mem.bytes@,
                        disk_off as int,
                        mem_off as int,
                        len_u as int,
                    ));
                }
            } else {
                let mut t: usize = 0;
                while t < len_u
                    invariant
                        t <= len_u,
                        mem.bytes.len() == pre_mem.bytes.len(),
                        mem.phys == pre_mem.phys,
                        forall|i: int|
                            0 <= i < mem.bytes.len() && !(mem_off <= i < mem_off + t)
                                ==> mem.bytes@[i] == pre_mem.bytes@[i],
                        forall|i: int|
                            mem_off <= i < mem_off + t ==> mem.bytes@[i] == pre_self.disk@[
                                disk_off + (i - mem_off)],
                    decreases len_u - t,
                {
                    let b = self.disk[disk_off + t];
                    mem.bytes[mem_off + t] = b;
                    t = t + 1;
                }
                proof {
                    assert(mem.bytes@ =~= spec_copy_into(
                        pre_mem.bytes@,
                        pre_self.disk@,
                        mem_off as int,
                        disk_off as int,
                        len_u as int,
                    ));
                }
            }
        }
        // Post the completion with the current phase, then advance the device
        // cursors, flipping the phase when the completion ring wraps.
        let new_sq_head: u16 = (if self.sq_fetch + 1 < qp.sub_queue.len {
            self.sq_fetch + 1
        } else {
            0
        }) as u16;
        let status: u16 = 2 * code + (if self.cq_phase {
            1
        } else {
            0
        });
        let entry = NvmeCompletion {
            command_specific: 0,
            _rsvd: 0,
            sq_head: new_sq_head,
            sq_id: qp.id,
            c_id: cmd.c_id,
            status,
        };
        qp.comp_queue.device_write(self.cq_tail, entry);
        self.sq_fetch = if self.sq_fetch + 1 < qp.sub_queue.len {
            self.sq_fetch + 1
        } else {
            0
        };
        self.cq_tail = if self.cq_tail + 1 < qp.sub_queue.len {
            self.cq_tail + 1
        } else {
            0
        };
        if self.cq_tail == 0 {
            self.cq_phase = !self.cq_phase;
        }
        true
    }

    /// Checks that the command's PRP entries are exactly the canonical
    /// contiguous form over a range inside `mem`, by rebuilding them and
    /// comparing.
    #[verifier::loop_isolation(false)]
    fn prps_canonical(&self, qp: &NvmeQueuePair, cmd: &NvmeCommand, mem: &Dma, len: u64) -> (r:
        bool)
        requires
            qp.wf(),
            mem.wf(),
            len == spec_cmd_len(*cmd, qp.block_size as int),
            len >= 512,
            len <= 0x1_0000 * 4096,
        ensures
            r == (cmd.c_id < qp.qlen() && spec_prps_ok(
                *cmd,
                qp.prp_lists[cmd.c_id as int]@,
                qp.block_size as int,
                *mem,
                qp.spec_list_slot_phys(cmd.c_id),
            )),
    {
        if !((cmd.c_id as usize) < qp.prp_lists.len()) {
            return false;
        }
        if !(len < MAX_TRANSFER_SIZE as u64) {
            return false;
        }
        if !(mem.phys <= cmd.prp1) {
            return false;
        }
        if (mem.bytes.len() as u64) < len {
            return false;
        }
        if cmd.prp1 - mem.phys > mem.bytes.len() as u64 - len {
            return false;
        }
        proof {
            assert((cmd.c_id as int) * PAGE_SIZE <= (qp.qlen() - 1) * PAGE_SIZE)
                by (nonlinear_arith)
                requires
                    cmd.c_id as int <= qp.qlen() - 1,
                    PAGE_SIZE > 0,
            ;
        }
        let slot_phys: u64 = qp.prp_base + (cmd.c_id as u64) * (PAGE_SIZE as u64);
        let expect = match build_prp(cmd.prp1, len as usize, slot_phys) {
            Ok(p) => p,
            Err(_) => {
                proof {
                    assert(false);
                }
                return false;
            },
        };
        if cmd.prp2 != expect.prp2 {
            return false;
        }
        if expect.needs_list {
            let list = &qp.prp_lists[cmd.c_id as usize];
            if list.len() != expect.list.len() {
                return false;
            }
            let mut j: usize = 0;
            while j < list.len()
                invariant
                    j <= list.len(),
                    list.len() == expect.list.len(),
                    forall|x: int| 0 <= x < j ==> list@[x] == expect.list@[x],
                decreases list.len() - j,
            {
                if list[j] != expect.list[j] {
                    return false;
                }
                j = j + 1;
            }
            proof {
                let np = spec_pages_spanned(cmd.prp1 as int, len as int);
                assert(forall|x: int|
                    0 <= x < np - 1 ==> qp.prp_lists[cmd.c_id as int]@[x] == spec_page_addr(
                        cmd.prp1 as int,
                        x + 1,
                    ));
            }
            true
        } else {
            true
        }
    }
}

} // verus!
