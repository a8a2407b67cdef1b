use vroom::memory::{Dma, HUGE_PAGE_SIZE, PAGE_SIZE};
use vroom::prp::PRP_CHUNK_SIZE;
use vroom::queue_pair::NvmeQueuePair;
use vroom::queues::NvmeCompletion;
use vroom::sim::SimController;
use vroom::NvmeNamespace;

const MEM_PHYS: u64 = 0x4000_0000;

fn test_ns() -> NvmeNamespace {
    NvmeNamespace { id: 1, blocks: 8192, block_size: 512 }
}

fn test_qp(len: usize) -> NvmeQueuePair {
    NvmeQueuePair::new(1, len, 0x1008, 0x100c, 0x20000, 0x40000, 0x100000, 1, 512).unwrap()
}

#[test]
fn submit_async_places_one_command_per_small_buffer() {
    let mut qp = test_qp(1024);
    let mem = Dma::allocate(MEM_PHYS, HUGE_PAGE_SIZE);
    let (tail, ids) = qp.submit_async(mem.slice(0, 512), 3, true);
    assert_eq!(ids, vec![0]);
    assert_eq!(tail, Some(1));
    let cmd = qp.sub_queue.commands[0];
    assert_eq!(cmd.opcode, 0x01);
    assert_eq!(cmd.c_id, 0);
    assert_eq!(cmd.nsid, 1);
    assert_eq!(cmd.prp1, MEM_PHYS);
    assert_eq!(cmd.prp2, 0);
    assert_eq!(cmd.cdw10, 3);
    assert_eq!(cmd.cdw11, 0);
    assert_eq!(cmd.cdw12, 0); // one block, zero-based
    // Identifiers are monotonic modulo the queue length.
    let (_, ids2) = qp.submit_async(mem.slice(512, 512), 4, false);
    assert_eq!(ids2, vec![1]);
    assert_eq!(qp.sub_queue.commands[1].opcode, 0x02);
}

#[test]
fn submit_async_cuts_large_buffers_into_chunks() {
    let mut qp = test_qp(1024);
    let mem = Dma::allocate(MEM_PHYS, HUGE_PAGE_SIZE);
    // A full huge page takes two chunks: one of PRP_CHUNK_SIZE, one of the rest.
    let (tail, ids) = qp.submit_async(mem.slice(0, HUGE_PAGE_SIZE), 0, true);
    assert_eq!(ids, vec![0, 1]);
    assert_eq!(tail, Some(2));
    let c0 = qp.sub_queue.commands[0];
    let c1 = qp.sub_queue.commands[1];
    assert_eq!(c0.prp1, MEM_PHYS);
    // First chunk needs a PRP list: prp2 points at command slot 0's list page.
    assert_eq!(c0.prp2, 0x100000);
    assert_eq!(qp.prp_lists[0].len(), 509);
    assert_eq!(c0.cdw12 + 1, (PRP_CHUNK_SIZE / 512) as u32);
    // Second chunk starts right after the first, in bytes and in blocks.
    assert_eq!(c1.prp1, MEM_PHYS + PRP_CHUNK_SIZE as u64);
    assert_eq!(c1.cdw10, (PRP_CHUNK_SIZE / 512) as u32);
    assert_eq!((c1.cdw12 + 1) as usize, (HUGE_PAGE_SIZE - PRP_CHUNK_SIZE) / 512);
    // Two pages remain: prp2 is the second page's address, no list.
    assert_eq!(c1.prp2, MEM_PHYS + (PRP_CHUNK_SIZE + PAGE_SIZE) as u64);
    assert!(qp.prp_lists[1].is_empty());
}

#[test]
fn submit_async_returns_prefix_when_ring_fills() {
    let mut qp = test_qp(4);
    let mem = Dma::allocate(MEM_PHYS, HUGE_PAGE_SIZE);
    // 5 chunks wanted, but only 3 slots free on a ring of 4.
    let (tail, ids) = qp.submit_async(mem.slice(0, 512), 0, true);
    let (_, ids2) = qp.submit_async(mem.slice(512, 512), 1, true);
    let (_, ids3) = qp.submit_async(mem.slice(1024, 512), 2, true);
    assert_eq!((ids.len(), ids2.len(), ids3.len()), (1, 1, 1));
    assert_eq!(tail, Some(1));
    let (tail4, ids4) = qp.submit_async(mem.slice(2048, 512), 3, true);
    assert_eq!(ids4.len(), 0);
    assert_eq!(tail4, None);
}

#[test]
fn pending_accounting_invariant_holds_across_submit_and_poll() {
    // |pending| + free slots == L - 1, at every step.
    let ns = test_ns();
    let mut qp = test_qp(1024);
    let mut sim = SimController::new(ns);
    let mut mem = Dma::allocate(MEM_PHYS, HUGE_PAGE_SIZE);
    let l = 1024;
    assert_eq!(qp.pending.len() as i64 + free_slots(&qp), l - 1);
    let (tail, ids) = qp.submit_async(mem.slice(0, 4096), 0, true);
    for (k, id) in ids.iter().enumerate() {
        qp.pending.insert(*id, k);
    }
    qp.set_tail(tail.unwrap() as u32);
    assert_eq!(qp.pending.len(), 1);
    assert_eq!(qp.pending.len() as i64 + free_slots(&qp), l - 1);
    assert!(sim.execute_one(&mut qp, &mut mem));
    let done = qp.poll_multi(16);
    assert_eq!(done.len(), 1);
    assert_eq!(done[0], (ids[0], 0));
    assert_eq!(qp.pending.len(), 0);
    assert_eq!(qp.pending.len() as i64 + free_slots(&qp), l - 1);
}

fn free_slots(qp: &NvmeQueuePair) -> i64 {
    let l = 1024i64;
    let head = qp.sub_queue.head as i64;
    let tail = qp.sub_queue.tail as i64;
    let outstanding = if tail >= head { tail - head } else { tail - head + l };
    l - 1 - outstanding
}

#[test]
fn stray_completion_is_consumed_and_ignored() {
    // A completion whose c_id has no pending request is discarded: no result,
    // no freed submission slot, but the ring entry is consumed.
    let mut qp = test_qp(1024);
    let mut bogus = NvmeCompletion::zeroed();
    bogus.c_id = 55;
    bogus.status = 1; // phase 1, status code 0
    qp.comp_queue.device_write(0, bogus);
    let done = qp.poll_multi(16);
    assert!(done.is_empty());
    assert_eq!(qp.comp_queue.head, 1);
    assert_eq!(qp.sub_queue.head, 0);
}

#[test]
fn duplicate_completion_is_detected_and_ignored() {
    let ns = test_ns();
    let mut qp = test_qp(1024);
    let mut sim = SimController::new(ns);
    let mut mem = Dma::allocate(MEM_PHYS, HUGE_PAGE_SIZE);
    let (tail, ids) = qp.submit_async(mem.slice(0, 512), 0, true);
    for (k, id) in ids.iter().enumerate() {
        qp.pending.insert(*id, k);
    }
    qp.set_tail(tail.unwrap() as u32);
    assert!(sim.execute_one(&mut qp, &mut mem));
    // The device misbehaves and posts the same completion again.
    let dup = qp.comp_queue.commands[0];
    qp.comp_queue.device_write(1, dup);
    let done = qp.poll_multi(16);
    // Only the first copy resolves; the duplicate is dropped.
    assert_eq!(done.len(), 1);
    assert_eq!(done[0].0, ids[0]);
    assert_eq!(qp.pending.len(), 0);
}

#[test]
fn poll_multi_respects_budget() {
    let ns = test_ns();
    let mut qp = test_qp(1024);
    let mut sim = SimController::new(ns);
    let mut mem = Dma::allocate(MEM_PHYS, HUGE_PAGE_SIZE);
    for i in 0..5u64 {
        let (tail, ids) = qp.submit_async(mem.slice((i as usize) * 512, 512), i, true);
        for (k, id) in ids.iter().enumerate() {
            qp.pending.insert(*id, k);
        }
        qp.set_tail(tail.unwrap() as u32);
    }
    while sim.execute_one(&mut qp, &mut mem) {}
    let first = qp.poll_multi(3);
    // Completions come back in ring order, which is the device's order.
    assert_eq!(first, vec![(0, 0), (1, 0), (2, 0)]);
    let rest = qp.poll_multi(16);
    assert_eq!(rest, vec![(3, 0), (4, 0)]);
    assert!(qp.poll_multi(16).is_empty());
}
