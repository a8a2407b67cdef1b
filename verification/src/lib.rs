//! The core of a user-space NVMe block-device driver: submission and
//! completion rings with the phase-tag protocol, PRP translation of host
//! buffers, queue pairs with per-command pending accounting, and the
//! request-oriented facade with its round-robin spill policy. Every function
//! here carries a contract; the asynchronous plumbing, PCI discovery, and
//! MMIO access live outside the verified core.

pub mod cmd;
pub mod driver;
pub mod memory;
pub mod nvme_future;
pub mod pending;
pub mod poller;
pub mod prp;
pub mod queue_pair;
pub mod queues;
pub mod request;
pub mod sim;

use vstd::prelude::*;

verus! {

/// Error kinds of the driver core.
#[derive(Clone, Copy, Debug, PartialEq, Eq, Structural)]
pub enum NvmeError {
    /// The PCI device class is not mass-storage / NVMe.
    NotNvme,
    /// Controller bring-up failed (CSTS.RDY never asserted, IDENTIFY failed).
    ControllerInit,
    /// A huge-page or PRP-list allocation failed.
    ResourceExhausted,
    /// A single command would require more than one PRP-list page.
    TransferTooLarge,
    /// The submission queue is full.
    QueueFull,
    /// The device returned a nonzero completion status.
    NvmeStatus(u16),
    /// The completion notifier was dropped before delivery.
    ChannelClosed,
}

/// Prepares the process for driving the device at the given PCI address.
/// The in-memory core keeps no per-process state, so there is nothing to do.
pub fn init(_pci_addr: &str) -> (r: Result<(), NvmeError>)
    ensures
        r is Ok,
{
    Ok(())
}

/// A namespace descriptor, as reported by IDENTIFY NAMESPACE.
#[derive(Clone, Copy, Debug)]
pub struct NvmeNamespace {
    pub id: u32,
    pub blocks: u64,
    pub block_size: u64,
}

/// Counters of submitted and completed commands.
#[derive(Clone, Copy, Debug)]
pub struct NvmeStats {
    pub completions: u64,
    pub submissions: u64,
}

} // verus!
