use vstd::prelude::*;

use crate::memory::{HUGE_PAGE_SIZE, PAGE_SIZE};
use crate::NvmeError;

verus! {

/// The largest transfer a single command may carry: anything needing more than
/// one PRP-list page is refused.
pub const MAX_TRANSFER_SIZE: usize = HUGE_PAGE_SIZE - PAGE_SIZE;

/// The chunk size the queue pair cuts large transfers into: the largest
/// whole-page transfer below the PRP-list limit.
pub const PRP_CHUNK_SIZE: usize = HUGE_PAGE_SIZE - 2 * PAGE_SIZE;

/// Number of 4 KiB pages a transfer of `len` bytes starting at physical
/// address `phys` touches.
pub open spec fn spec_pages_spanned(phys: int, len: int) -> int {
    (phys % (PAGE_SIZE as int) + len + (PAGE_SIZE - 1)) / (PAGE_SIZE as int)
}

/// Physical base address of the `k`-th page (counting from zero) touched by a
/// transfer starting at `phys`.
pub open spec fn spec_page_addr(phys: int, k: int) -> int {
    phys - phys % (PAGE_SIZE as int) + k * (PAGE_SIZE as int)
}

/// Bounds of the ceiling division hidden in `spec_pages_spanned`.
pub proof fn lemma_ceil_div(a: int, m: int)
    requires
        a >= 0,
        m > 0,
    ensures
        ((a + m - 1) / m) * m >= a,
        ((a + m - 1) / m - 1) * m < a,
        (a + m - 1) / m >= 0,
        a > 0 ==> (a + m - 1) / m >= 1,
        a <= m ==> (a + m - 1) / m <= 1,
{
    let q = (a + m - 1) / m;
    let r = (a + m - 1) % m;
    vstd::arithmetic::div_mod::lemma_fundamental_div_mod(a + m - 1, m);
    vstd::arithmetic::div_mod::lemma_mod_bound(a + m - 1, m);
    assert(a + m - 1 == m * q + r);
    assert(q * m == m * q) by (nonlinear_arith);
    assert((q - 1) * m == q * m - m) by (nonlinear_arith);
    if a > 0 && q < 1 {
        assert(m * q <= 0) by (nonlinear_arith)
            requires
                q <= 0,
                m > 0,
        ;
    }
    if a <= m && q > 1 {
        assert(m * q >= 2 * m) by (nonlinear_arith)
            requires
                q >= 2,
                m > 0,
        ;
    }
}

/// The pages spanned by a transfer, bounded by its length.
pub proof fn lemma_pages_spanned_bounds(phys: int, len: int)
    requires
        phys >= 0,
        len >= 1,
    ensures
        spec_pages_spanned(phys, len) >= 1,
        spec_pages_spanned(phys, len) * PAGE_SIZE >= phys % (PAGE_SIZE as int) + len,
        (spec_pages_spanned(phys, len) - 1) * PAGE_SIZE < phys % (PAGE_SIZE as int) + len,
        spec_pages_spanned(phys, len) <= (len + 2 * PAGE_SIZE - 2) / (PAGE_SIZE as int),
{
    let m = PAGE_SIZE as int;
    let off = phys % m;
    vstd::arithmetic::div_mod::lemma_mod_bound(phys, m);
    lemma_ceil_div(off + len, m);
    let q1 = spec_pages_spanned(phys, len);
    let q2 = (len + 2 * m - 2) / m;
    assert(q1 <= q2) by {
        vstd::arithmetic::div_mod::lemma_div_is_ordered(off + len + m - 1, len + 2 * m - 2, m);
    }
}

/// The PRP entries of one command: the first page pointer, the second
/// (a page address, a list pointer, or zero), whether a list page is needed,
/// and the list entries to store into it.
pub struct PrpResult {
    pub prp1: u64,
    pub prp2: u64,
    pub needs_list: bool,
    pub list: Vec<u64>,
}

impl PrpResult {
    /// The entries describe the contiguous range `[phys, phys + len)`, with
    /// the list page (if any) pinned at `list_slot_phys`.
    pub open spec fn describes(self, phys: int, len: int, list_slot_phys: int) -> bool {
        let np = spec_pages_spanned(phys, len);
        &&& self.prp1 == phys
        &&& self.needs_list == (np > 2)
        &&& self.prp2 == if np <= 1 {
            0int
        } else if np == 2 {
            spec_page_addr(phys, 1)
        } else {
            list_slot_phys
        }
        &&& if np > 2 {
            &&& self.list.len() == np - 1
            &&& forall|k: int| 0 <= k < np - 1 ==> self.list[k] == spec_page_addr(phys, k + 1)
        } else {
            self.list.len() == 0
        }
    }
}

/// Translates the contiguous host range `[phys, phys + len)` into PRP entries:
/// `prp1` points at the first byte; a transfer within one page leaves `prp2`
/// zero; one spanning exactly two pages puts the second page address in
/// `prp2`; a longer one fills a PRP list with the addresses of pages two
/// through last and points `prp2` at `list_slot_phys`, where the caller keeps
/// the list page for this command slot. A transfer whose list would exceed one
/// list page is refused with `TransferTooLarge`.
pub fn build_prp(phys: u64, len: usize, list_slot_phys: u64) -> (r: Result<PrpResult, NvmeError>)
    requires
        len >= 1,
        phys + len <= u64::MAX,
    ensures
        len >= MAX_TRANSFER_SIZE <==> r == Err::<PrpResult, NvmeError>(NvmeError::TransferTooLarge),
        r matches Ok(p) ==> p.describes(phys as int, len as int, list_slot_phys as int),
        r is Err ==> r == Err::<PrpResult, NvmeError>(NvmeError::TransferTooLarge),
{
    if len >= MAX_TRANSFER_SIZE {
        return Err(NvmeError::TransferTooLarge);
    }
    let offset: u64 = phys % (PAGE_SIZE as u64);
    proof {
        lemma_pages_spanned_bounds(phys as int, len as int);
    }
    let np: u64 = (offset + len as u64 + (PAGE_SIZE as u64 - 1)) / (PAGE_SIZE as u64);
    let first_base: u64 = phys - offset;
    if np <= 1 {
        Ok(PrpResult { prp1: phys, prp2: 0, needs_list: false, list: Vec::new() })
    } else if np == 2 {
        proof {
            assert((np - 1) * PAGE_SIZE < offset + len);
        }
        Ok(PrpResult {
            prp1: phys,
            prp2: first_base + PAGE_SIZE as u64,
            needs_list: false,
            list: Vec::new(),
        })
    } else {
        let mut list: Vec<u64> = Vec::new();
        let mut k: u64 = 1;
        proof {
            assert((np - 1) * PAGE_SIZE < offset + len);
        }
        while k < np
            invariant
                1 <= k <= np,
                list.len() == k - 1,
                forall|j: int|
                    0 <= j < k - 1 ==> list[j] == spec_page_addr(phys as int, j + 1),
                first_base == phys as int - (phys as int) % (PAGE_SIZE as int),
                (np - 1) * PAGE_SIZE < (phys as int) % (PAGE_SIZE as int) + len,
                phys + len <= u64::MAX,
                np == spec_pages_spanned(phys as int, len as int),
            decreases np - k,
        {
            proof {
                assert(k * PAGE_SIZE <= (np - 1) * PAGE_SIZE) by (nonlinear_arith)
                    requires
                        k <= np - 1,
                        PAGE_SIZE > 0,
                ;
            }
            list.push(first_base + k * (PAGE_SIZE as u64));
            k = k + 1;
        }
        Ok(PrpResult { prp1: phys, prp2: list_slot_phys, needs_list: true, list })
    }
}

} // verus!
