//! Kernel ABI records shared by the syscall adapters.
use vstd::prelude::*;

verus! {

/// Submission queue entry in the kernel's 64-byte layout.
#[derive(Debug, Clone, Copy)]
pub struct SyscallSqe {
    pub opcode: u8,
    pub flags: u8,
    pub ioprio: u16,
    pub fd: i32,
    pub off_addr2: u64,
    pub addr: u64,
    pub len: u32,
    pub rw_flags: u32,
    pub user_data: u64,
    pub buf_index: u16,
    pub personality: u16,
    pub splice_fd_in: i32,
    pub addr3: u64,
    pub resv: u64,
}

/// Completion queue entry in the kernel's 16-byte layout.
#[derive(Debug, Clone, Copy)]
pub struct SyscallCqe {
    pub res: i32,
    pub flags: u32,
    pub user_data: u64,
}

} // verus!
