use vroom::memory::{Dma, DmaSlice, HUGE_PAGE_SIZE, PAGE_SIZE};
use vroom::pending::PendingTable;
use vroom::prp::{build_prp, MAX_TRANSFER_SIZE, PRP_CHUNK_SIZE};
use vroom::NvmeError;

#[test]
fn prp_single_page_leaves_prp2_zero() {
    let p = build_prp(0x10000, 512, 0x9000).unwrap();
    assert_eq!(p.prp1, 0x10000);
    assert_eq!(p.prp2, 0);
    assert!(!p.needs_list);
    assert!(p.list.is_empty());
}

#[test]
fn prp_two_pages_puts_second_page_in_prp2() {
    let p = build_prp(0x10000, 2 * 4096, 0x9000).unwrap();
    assert_eq!(p.prp1, 0x10000);
    assert_eq!(p.prp2, 0x11000);
    assert!(!p.needs_list);
    assert!(p.list.is_empty());
}

#[test]
fn prp_unaligned_start_spills_into_second_page() {
    // 512 bytes starting 3840 bytes into a page cross one page boundary.
    let p = build_prp(0x10000 + 3840, 512, 0x9000).unwrap();
    assert_eq!(p.prp1, 0x10f00);
    assert_eq!(p.prp2, 0x11000);
    assert!(!p.needs_list);
}

#[test]
fn prp_long_transfer_needs_list_page() {
    // Three pages: the list page holds pages two and three.
    let p = build_prp(0x10000, 3 * 4096, 0x9000).unwrap();
    assert_eq!(p.prp1, 0x10000);
    assert_eq!(p.prp2, 0x9000);
    assert!(p.needs_list);
    assert_eq!(p.list.len(), 2);
    assert_eq!(p.list[0], 0x11000);
    assert_eq!(p.list[1], 0x12000);
}

#[test]
fn prp_chunk_sized_transfer_fits_one_list_page() {
    let p = build_prp(0x200000, PRP_CHUNK_SIZE, 0x9000).unwrap();
    assert!(p.needs_list);
    // 510 pages: 509 list entries beyond the first page.
    assert_eq!(p.list.len(), 509);
    assert_eq!(p.list[0], 0x201000);
    assert_eq!(p.list[508], 0x200000 + 509 * 4096);
}

#[test]
fn prp_oversized_transfer_is_refused() {
    let r = build_prp(0x10000, MAX_TRANSFER_SIZE, 0x9000);
    match r {
        Err(e) => assert_eq!(e, NvmeError::TransferTooLarge),
        Ok(_) => panic!("oversized transfer was accepted"),
    }
    // One byte below the limit is accepted.
    assert!(build_prp(0x10000, MAX_TRANSFER_SIZE - 1, 0x9000).is_ok());
}

#[test]
fn prp_limit_is_one_page_short_of_a_huge_page() {
    assert_eq!(MAX_TRANSFER_SIZE, HUGE_PAGE_SIZE - PAGE_SIZE);
    assert_eq!(PRP_CHUNK_SIZE, HUGE_PAGE_SIZE - 2 * PAGE_SIZE);
}

#[test]
fn pending_insert_remove() {
    let mut p = PendingTable::new(16);
    assert!(p.is_empty());
    assert_eq!(p.len(), 0);
    assert!(!p.contains(3));
    p.insert(3, 77);
    assert!(p.contains(3));
    assert_eq!(p.len(), 1);
    assert!(!p.is_empty());
    assert_eq!(p.remove(3), Some(77));
    assert_eq!(p.len(), 0);
    assert!(!p.contains(3));
}

#[test]
fn pending_duplicate_removal_is_ignored() {
    let mut p = PendingTable::new(16);
    p.insert(5, 1);
    assert_eq!(p.remove(5), Some(1));
    // A second removal of the same identifier finds nothing.
    assert_eq!(p.remove(5), None);
    assert_eq!(p.len(), 0);
}

#[test]
fn pending_out_of_range_identifier_is_absent() {
    let mut p = PendingTable::new(16);
    assert!(!p.contains(1000));
    assert_eq!(p.remove(1000), None);
}

#[test]
fn dma_chunks_tile_the_region() {
    let d = Dma::allocate(0x40000000, 2 * PAGE_SIZE);
    let parts = d.chunks(3000);
    assert_eq!(parts.len(), 3);
    assert_eq!((parts[0].phys, parts[0].len), (0x40000000, 3000));
    assert_eq!((parts[1].phys, parts[1].len), (0x40000000 + 3000, 3000));
    assert_eq!((parts[2].phys, parts[2].len), (0x40000000 + 6000, 2192));
}

#[test]
fn dma_region_round_trips_bytes() {
    let mut d = Dma::allocate(0x40000000, 2 * PAGE_SIZE);
    assert_eq!(d.phys, 0x40000000);
    assert_eq!(d.bytes.len(), 2 * PAGE_SIZE);
    d.write_bytes(100, &[1, 2, 3, 4]);
    assert_eq!(d.read_bytes(100, 4), vec![1, 2, 3, 4]);
    assert_eq!(d.read_bytes(99, 1), vec![0]);
    assert_eq!(d.byte_at_phys(0x40000000 + 101), 2);
    d.set_byte_at_phys(0x40000000 + 101, 9);
    assert_eq!(d.read_bytes(101, 1), vec![9]);
    let s: DmaSlice = d.slice(4096, 512);
    assert_eq!(s.phys, 0x40001000);
    assert_eq!(s.len, 512);
}
