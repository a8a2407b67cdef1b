use vstd::prelude::*;

verus! {

/// NVM command set: write.
pub const OPCODE_IO_WRITE: u8 = 0x01;

/// NVM command set: read.
pub const OPCODE_IO_READ: u8 = 0x02;

/// Admin command set: delete I/O submission queue.
pub const OPCODE_ADMIN_DELETE_SQ: u8 = 0x00;

/// Admin command set: delete I/O completion queue.
pub const OPCODE_ADMIN_DELETE_CQ: u8 = 0x04;

/// Admin command set: identify.
pub const OPCODE_ADMIN_IDENTIFY: u8 = 0x06;

/// A 64-byte submission queue entry in the NVMe 1.4 layout: opcode and flags
/// (dword 0 together with the command identifier), namespace id (dword 1),
/// metadata pointer, the two PRP entries, and the command-specific
/// dwords 10 through 15.
#[derive(Clone, Copy, Debug, PartialEq, Eq, Structural)]
pub struct NvmeCommand {
    pub opcode: u8,
    pub flags: u8,
    pub c_id: u16,
    pub nsid: u32,
    pub metadata_ptr: u64,
    pub prp1: u64,
    pub prp2: u64,
    pub cdw10: u32,
    pub cdw11: u32,
    pub cdw12: u32,
    pub cdw13: u32,
    pub cdw14: u32,
    pub cdw15: u32,
}

/// The command word every builder starts from: all fields zero.
pub open spec fn spec_zeroed_command() -> NvmeCommand {
    NvmeCommand {
        opcode: 0,
        flags: 0,
        c_id: 0,
        nsid: 0,
        metadata_ptr: 0,
        prp1: 0,
        prp2: 0,
        cdw10: 0,
        cdw11: 0,
        cdw12: 0,
        cdw13: 0,
        cdw14: 0,
        cdw15: 0,
    }
}

/// An I/O read or write command: dwords 10 and 11 carry the starting LBA, the
/// low 16 bits of dword 12 carry the zero-based block count.
pub open spec fn spec_io_command(
    write: bool,
    c_id: u16,
    nsid: u32,
    lba: u64,
    blocks: u64,
    prp1: u64,
    prp2: u64,
) -> NvmeCommand {
    NvmeCommand {
        opcode: if write {
            OPCODE_IO_WRITE
        } else {
            OPCODE_IO_READ
        },
        flags: 0,
        c_id,
        nsid,
        metadata_ptr: 0,
        prp1,
        prp2,
        cdw10: (lba % 0x1_0000_0000) as u32,
        cdw11: (lba / 0x1_0000_0000) as u32,
        cdw12: ((blocks - 1) % 0x1_0000) as u32,
        cdw13: 0,
        cdw14: 0,
        cdw15: 0,
    }
}

impl NvmeCommand {
    /// An all-zero command word.
    pub fn zeroed() -> (r: NvmeCommand)
        ensures
            r == spec_zeroed_command(),
    {
        NvmeCommand {
            opcode: 0,
            flags: 0,
            c_id: 0,
            nsid: 0,
            metadata_ptr: 0,
            prp1: 0,
            prp2: 0,
            cdw10: 0,
            cdw11: 0,
            cdw12: 0,
            cdw13: 0,
            cdw14: 0,
            cdw15: 0,
        }
    }

    /// Builds the I/O command that reads `blocks` logical blocks starting at
    /// `lba` into the buffer described by the PRP entries.
    pub fn io_read(c_id: u16, nsid: u32, lba: u64, blocks: u64, prp1: u64, prp2: u64) -> (r:
        NvmeCommand)
        requires
            1 <= blocks <= 0x1_0000,
        ensures
            r == spec_io_command(false, c_id, nsid, lba, blocks, prp1, prp2),
    {
        NvmeCommand {
            opcode: OPCODE_IO_READ,
            flags: 0,
            c_id,
            nsid,
            metadata_ptr: 0,
            prp1,
            prp2,
            cdw10: (lba % 0x1_0000_0000) as u32,
            cdw11: (lba / 0x1_0000_0000) as u32,
            cdw12: ((blocks - 1) % 0x1_0000) as u32,
            cdw13: 0,
            cdw14: 0,
            cdw15: 0,
        }
    }

    /// Builds the I/O command that writes `blocks` logical blocks starting at
    /// `lba` from the buffer described by the PRP entries.
    pub fn io_write(c_id: u16, nsid: u32, lba: u64, blocks: u64, prp1: u64, prp2: u64) -> (r:
        NvmeCommand)
        requires
            1 <= blocks <= 0x1_0000,
        ensures
            r == spec_io_command(true, c_id, nsid, lba, blocks, prp1, prp2),
    {
        NvmeCommand {
            opcode: OPCODE_IO_WRITE,
            flags: 0,
            c_id,
            nsid,
            metadata_ptr: 0,
            prp1,
            prp2,
            cdw10: (lba % 0x1_0000_0000) as u32,
            cdw11: (lba / 0x1_0000_0000) as u32,
            cdw12: ((blocks - 1) % 0x1_0000) as u32,
            cdw13: 0,
            cdw14: 0,
            cdw15: 0,
        }
    }

    /// Builds the admin command that deletes the I/O submission queue with the
    /// given queue identifier.
    pub fn delete_io_submission_queue(c_id: u16, q_id: u16) -> (r: NvmeCommand)
        ensures
            r == (NvmeCommand { opcode: OPCODE_ADMIN_DELETE_SQ, c_id, cdw10: q_id as u32, ..spec_zeroed_command() }),
    {
        NvmeCommand {
            opcode: OPCODE_ADMIN_DELETE_SQ,
            flags: 0,
            c_id,
            nsid: 0,
            metadata_ptr: 0,
            prp1: 0,
            prp2: 0,
            cdw10: q_id as u32,
            cdw11: 0,
            cdw12: 0,
            cdw13: 0,
            cdw14: 0,
            cdw15: 0,
        }
    }

    /// Builds the admin command that deletes the I/O completion queue with the
    /// given queue identifier.
    pub fn delete_io_completion_queue(c_id: u16, q_id: u16) -> (r: NvmeCommand)
        ensures
            r == (NvmeCommand { opcode: OPCODE_ADMIN_DELETE_CQ, c_id, cdw10: q_id as u32, ..spec_zeroed_command() }),
    {
        NvmeCommand {
            opcode: OPCODE_ADMIN_DELETE_CQ,
            flags: 0,
            c_id,
            nsid: 0,
            metadata_ptr: 0,
            prp1: 0,
            prp2: 0,
            cdw10: q_id as u32,
            cdw11: 0,
            cdw12: 0,
            cdw13: 0,
            cdw14: 0,
            cdw15: 0,
        }
    }
}

} // verus!
