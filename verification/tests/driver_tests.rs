use vroom::driver::{check_nvme_class, is_nvme_class, Driver, QP_DMA_STRIDE};
use vroom::memory::{Dma, DmaSlice, HUGE_PAGE_SIZE};
use vroom::request::{resolve, CompletionMessage, ReceiverPoll, State};
use vroom::sim::{SimController, STATUS_LBA_OUT_OF_RANGE};
use vroom::NvmeError;
use vroom::NvmeNamespace;

const DMA_BASE: usize = 0x100_0000;
const MEM_PHYS: u64 = 0x4000_0000;

fn test_ns() -> NvmeNamespace {
    NvmeNamespace { id: 1, blocks: 8192, block_size: 512 }
}

fn sims(n: usize, ns: NvmeNamespace) -> Vec<SimController> {
    (0..n).map(|_| SimController::new(ns)).collect()
}

/// Runs the device over queue `q` until idle, then drains the completions.
fn settle(driver: &mut Driver, sims: &mut [SimController], mem: &mut Dma, q: usize) -> Vec<(u16, u16)> {
    while sims[q].execute_one(&mut driver.queue_pairs[q], mem) {}
    let mut all = Vec::new();
    loop {
        let done = driver.poll_queue(q, 16);
        if done.is_empty() {
            break;
        }
        all.extend(done);
    }
    all
}

#[test]
fn class_check_accepts_nvme_only() {
    assert!(is_nvme_class(0x0108_0002));
    assert!(!is_nvme_class(0x0106_0001));
    assert!(check_nvme_class(0x0108_0000).is_ok());
    assert_eq!(check_nvme_class(0x0106_0001), Err(NvmeError::NotNvme));
}

#[test]
fn hello_world_round_trip() {
    // Init a driver with 4 queue pairs of length 1024, write "Hello World!"
    // to LBA 0 via queue 0, read it back via queue 0, compare.
    assert!(vroom::init("0000:01:00.0").is_ok());
    let ns = test_ns();
    let mut driver = Driver::new(ns, 4, 0, DMA_BASE).unwrap();
    assert_eq!(driver.queue_pairs.len(), 4);
    let mut sims = sims(4, ns);
    let mut mem = Dma::allocate(MEM_PHYS, HUGE_PAGE_SIZE);
    mem.write_bytes(0, b"Hello World!");

    let reqs = driver.write(0, mem.slice(0, 512), 0);
    assert_eq!(reqs.len(), 1);
    assert_eq!(reqs[0].q_id, 0);
    let done = settle(&mut driver, &mut sims, &mut mem, 0);
    assert_eq!(done, vec![(reqs[0].c_id, 0)]);

    // Read back into a different part of the buffer.
    let reqs2 = driver.read(0, mem.slice(8192, 512), 0);
    assert_eq!(reqs2.len(), 1);
    let done2 = settle(&mut driver, &mut sims, &mut mem, 0);
    assert_eq!(done2, vec![(reqs2[0].c_id, 0)]);
    assert_eq!(mem.read_bytes(8192, 12), b"Hello World!".to_vec());
    assert_eq!(driver.stats.submissions, 2);
    assert_eq!(driver.stats.completions, 2);
}

#[test]
fn two_mebibyte_batch_round_trip() {
    // Write 2 MiB (4096 LBAs x 512 B) in a single batch on queue 0, needing
    // PRP lists; read back and compare byte for byte.
    let ns = test_ns();
    let mut driver = Driver::new(ns, 1, 0, DMA_BASE).unwrap();
    let mut sims = sims(1, ns);
    let mut mem = Dma::allocate(MEM_PHYS, 2 * HUGE_PAGE_SIZE);
    let mut pattern = Vec::with_capacity(HUGE_PAGE_SIZE);
    for i in 0..HUGE_PAGE_SIZE {
        pattern.push((i * 31 % 251) as u8);
    }
    mem.write_bytes(0, &pattern);

    let datas: Vec<DmaSlice> = vec![mem.slice(0, HUGE_PAGE_SIZE)];
    let lbas: Vec<u64> = vec![0];
    let reqs = driver.write_batch(0, &datas, &lbas);
    // One huge page is two chunks, hence two commands and two requests.
    assert_eq!(reqs.len(), 2);
    assert!(!driver.queue_pairs[0].prp_lists[reqs[0].c_id as usize].is_empty());
    let done = settle(&mut driver, &mut sims, &mut mem, 0);
    assert_eq!(done.len(), 2);
    assert!(done.iter().all(|&(_, code)| code == 0));

    let rdatas: Vec<DmaSlice> = vec![mem.slice(HUGE_PAGE_SIZE, HUGE_PAGE_SIZE)];
    let rreqs = driver.read_batch(0, &rdatas, &lbas);
    assert_eq!(rreqs.len(), 2);
    let done2 = settle(&mut driver, &mut sims, &mut mem, 0);
    assert_eq!(done2.len(), 2);
    assert!(done2.iter().all(|&(_, code)| code == 0));
    assert_eq!(mem.read_bytes(HUGE_PAGE_SIZE, HUGE_PAGE_SIZE), pattern);
}

#[test]
fn full_queue_spills_to_next_pair() {
    // Fill queue 0 to L - 1 outstanding, submit one more, observe the spill
    // by inspecting the request's queue id.
    let ns = test_ns();
    let mut driver = Driver::new(ns, 2, 0, DMA_BASE).unwrap();
    let mem = Dma::allocate(MEM_PHYS, HUGE_PAGE_SIZE);
    let datas: Vec<DmaSlice> = (0..1023).map(|i| mem.slice(i * 512, 512)).collect();
    let lbas: Vec<u64> = (0..1023).map(|i| i as u64).collect();
    let reqs = driver.write_batch(0, &datas, &lbas);
    assert_eq!(reqs.len(), 1023);
    assert!(reqs.iter().all(|r| r.q_id == 0));

    let spilled = driver.write(0, mem.slice(0, 512), 0);
    assert_eq!(spilled.len(), 1);
    assert_eq!(spilled[0].q_id, 1);
}

#[test]
fn out_of_range_write_resolves_with_nvme_status() {
    // A write to LBA ns_blocks + 1 resolves with NvmeStatus(LBA out of range).
    let ns = test_ns();
    let mut driver = Driver::new(ns, 1, 0, DMA_BASE).unwrap();
    let mut sims = sims(1, ns);
    let mut mem = Dma::allocate(MEM_PHYS, HUGE_PAGE_SIZE);
    let reqs = driver.write(0, mem.slice(0, 512), ns.blocks + 1);
    assert_eq!(reqs.len(), 1);
    let done = settle(&mut driver, &mut sims, &mut mem, 0);
    assert_eq!(done, vec![(reqs[0].c_id, STATUS_LBA_OUT_OF_RANGE)]);
    // Delivering the fault resolves the awaiting request to the NVMe status.
    let (state, out) = resolve(ReceiverPoll::Message(CompletionMessage::Fault(done[0].1)));
    assert_eq!(state, State::Error);
    assert_eq!(out, Some(Err(NvmeError::NvmeStatus(STATUS_LBA_OUT_OF_RANGE))));
}

#[test]
fn cleanup_is_idempotent_and_rejects_later_io() {
    // cleanup twice: both Ok; subsequent reads are rejected.
    let ns = test_ns();
    let mut driver = Driver::new(ns, 2, 0, DMA_BASE).unwrap();
    let mem = Dma::allocate(MEM_PHYS, HUGE_PAGE_SIZE);
    assert!(driver.cleanup().is_ok());
    assert!(driver.cleanup().is_ok());
    let reqs = driver.read(0, mem.slice(0, 512), 0);
    assert!(reqs.is_empty());
    let wreqs = driver.write(0, mem.slice(0, 512), 0);
    assert!(wreqs.is_empty());
    // The teardown sends one delete per ring, submission queue first.
    let cmds = driver.admin_delete_commands();
    assert_eq!(cmds.len(), 4);
    assert_eq!(cmds[0].opcode, 0x00);
    assert_eq!(cmds[0].cdw10, 1);
    assert_eq!(cmds[1].opcode, 0x04);
    assert_eq!(cmds[1].cdw10, 1);
    assert_eq!(cmds[2].cdw10, 2);
    assert_eq!(cmds[3].cdw10, 2);
}

#[test]
fn many_concurrent_reads_across_pairs_all_complete() {
    // 9216 reads of 4 KiB each across 9 queue pairs; all must complete.
    let ns = NvmeNamespace { id: 1, blocks: 65536, block_size: 512 };
    let mut driver = Driver::new(ns, 9, 0, DMA_BASE).unwrap();
    let mut sims = sims(9, ns);
    let mut mem = Dma::allocate(MEM_PHYS, HUGE_PAGE_SIZE);
    let slice = mem.slice(0, 4096);
    let total = 9216usize;
    let mut submitted = 0usize;
    let mut completed = 0usize;
    while submitted < total {
        let hint = submitted % 9;
        let reqs = driver.read(hint, slice, (submitted % 1024) as u64 * 8);
        if reqs.is_empty() {
            // Every pair is full: let the device catch up.
            for q in 0..9 {
                completed += settle(&mut driver, &mut sims, &mut mem, q).len();
            }
        } else {
            submitted += reqs.len();
        }
    }
    for q in 0..9 {
        completed += settle(&mut driver, &mut sims, &mut mem, q).len();
    }
    assert_eq!(submitted, total);
    assert_eq!(completed, total);
    assert_eq!(driver.stats.submissions, total as u64);
    assert_eq!(driver.stats.completions, total as u64);
}

#[test]
fn dma_stride_covers_rings_and_prp_region() {
    // Each pair claims two ring huge pages plus 1024 PRP-list pages.
    assert_eq!(QP_DMA_STRIDE, 4 * HUGE_PAGE_SIZE);
}
