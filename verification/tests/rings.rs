use vroom::cmd::NvmeCommand;
use vroom::queues::{NvmeCompQueue, NvmeCompletion, NvmeSubQueue, QUEUE_LENGTH};

fn cmd_with_id(c_id: u16) -> NvmeCommand {
    let mut c = NvmeCommand::zeroed();
    c.c_id = c_id;
    c
}

#[test]
fn sub_queue_starts_empty() {
    let q = NvmeSubQueue::new(8, 0x1008, 0x2000).unwrap();
    assert!(q.is_empty());
    assert!(!q.is_full());
    assert_eq!(q.head, 0);
    assert_eq!(q.tail, 0);
    assert_eq!(q.get_addr(), 0x2000);
    assert_eq!(q.doorbell, 0x1008);
}

#[test]
fn sub_queue_len_capped_at_queue_length() {
    let q = NvmeSubQueue::new(5000, 0, 0).unwrap();
    // Fill the ring: it must take exactly QUEUE_LENGTH - 1 entries.
    let mut q = q;
    let mut accepted = 0;
    while q.submit_checked(NvmeCommand::zeroed()).is_some() {
        accepted += 1;
    }
    assert_eq!(accepted, QUEUE_LENGTH - 1);
}

#[test]
fn sub_queue_submit_advances_tail() {
    let mut q = NvmeSubQueue::new(4, 0, 0).unwrap();
    assert_eq!(q.submit(cmd_with_id(7)), 1);
    assert_eq!(q.tail, 1);
    assert!(!q.is_empty());
    assert_eq!(q.submit(cmd_with_id(8)), 2);
    assert_eq!(q.submit(cmd_with_id(9)), 3);
    assert!(q.is_full());
    assert_eq!(q.submit_checked(cmd_with_id(10)), None);
    assert_eq!(q.commands[0].c_id, 7);
    assert_eq!(q.commands[1].c_id, 8);
    assert_eq!(q.commands[2].c_id, 9);
}

#[test]
fn sub_queue_tail_wraps() {
    let mut q = NvmeSubQueue::new(4, 0, 0).unwrap();
    q.submit(cmd_with_id(1));
    q.submit(cmd_with_id(2));
    q.submit(cmd_with_id(3));
    q.publish_tail(3);
    assert_eq!(q.db_tail, 3);
    // Free one slot, as a completion of a published command would.
    q.advance_head();
    assert!(!q.is_full());
    // The next submit lands on slot 3 and the tail wraps to 0.
    assert_eq!(q.submit(cmd_with_id(4)), 0);
    assert_eq!(q.tail, 0);
    assert_eq!(q.commands[3].c_id, 4);
}

fn entry(c_id: u16, code: u16, phase: bool) -> NvmeCompletion {
    let mut e = NvmeCompletion::zeroed();
    e.c_id = c_id;
    e.status = 2 * code + if phase { 1 } else { 0 };
    e
}

#[test]
fn comp_queue_ignores_stale_phase() {
    let mut q = NvmeCompQueue::new(4, 0, 0).unwrap();
    // Fresh ring: all-zero entries carry phase 0, the ring expects 1.
    assert!(q.complete().is_none());
    assert_eq!(q.head, 0);
}

#[test]
fn comp_queue_yields_fresh_entry() {
    let mut q = NvmeCompQueue::new(4, 0, 0).unwrap();
    q.device_write(0, entry(42, 0, true));
    let (new_head, e, prev) = q.complete().unwrap();
    assert_eq!(new_head, 1);
    assert_eq!(prev, 0);
    assert_eq!(e.c_id, 42);
    assert_eq!(e.status_code(), 0);
    assert!(e.phase_bit());
    // The same entry is not yielded twice.
    assert!(q.complete().is_none());
}

#[test]
fn comp_queue_phase_flips_on_wrap() {
    let mut q = NvmeCompQueue::new(2, 0, 0).unwrap();
    assert!(q.phase);
    q.device_write(0, entry(1, 0, true));
    q.device_write(1, entry(2, 0, true));
    q.complete().unwrap();
    let (new_head, e, _) = q.complete().unwrap();
    assert_eq!(e.c_id, 2);
    assert_eq!(new_head, 0);
    // Wrapped: the ring now expects phase 0 entries.
    assert!(!q.phase);
    // The old lap's entries are stale now.
    assert!(q.complete().is_none());
    // A new entry of the flipped phase is fresh.
    q.device_write(0, entry(3, 0, false));
    let (_, e3, _) = q.complete().unwrap();
    assert_eq!(e3.c_id, 3);
}

#[test]
fn comp_queue_complete_spin_returns_posted_entry() {
    let mut q = NvmeCompQueue::new(4, 0, 0).unwrap();
    q.device_write(0, entry(9, 3, true));
    let (new_head, e, prev) = q.complete_spin();
    assert_eq!((new_head, prev), (1, 0));
    assert_eq!(e.c_id, 9);
    assert_eq!(e.status_code(), 3);
}

#[test]
fn comp_queue_complete_n_skips_handled_entries() {
    let mut q = NvmeCompQueue::new(8, 0, 0).unwrap();
    // Three completions posted; the caller has already handled two.
    q.device_write(0, entry(1, 0, true));
    q.device_write(1, entry(2, 0, true));
    q.device_write(2, entry(3, 0, true));
    let (new_head, e, prev) = q.complete_n(3);
    assert_eq!(prev, 0);
    assert_eq!(new_head, 3);
    assert_eq!(e.c_id, 3);
}

#[test]
fn comp_queue_new_head_advances_without_reading() {
    let mut q = NvmeCompQueue::new(2, 0, 0).unwrap();
    let (new_head, prev) = q.new_head();
    assert_eq!((new_head, prev), (1, 0));
    let (new_head2, prev2) = q.new_head();
    assert_eq!((new_head2, prev2), (0, 1));
    assert!(!q.phase);
}

#[test]
fn comp_queue_get_addr_reports_ring_base() {
    let q = NvmeCompQueue::new(4, 0x100c, 0x3000).unwrap();
    assert_eq!(q.get_addr(), 0x3000);
    assert_eq!(q.doorbell, 0x100c);
}

#[test]
fn status_word_carries_phase_and_code() {
    let e = entry(5, 0x80, true);
    assert!(e.phase_bit());
    assert_eq!(e.status_code(), 0x80);
    let e2 = entry(5, 0x80, false);
    assert!(!e2.phase_bit());
    assert_eq!(e2.status_code(), 0x80);
}
