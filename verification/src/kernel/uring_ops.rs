//! Operations described before they are queued on a ring.
use vstd::prelude::*;
use crate::kernel::uring_emulator::{OpType, PendingOp};

verus! {

/// The operation a builder describes, with the sizes of its buffers.
#[derive(Clone, Copy)]
pub enum OpBuilder {
    Read { len: usize },
    Write { len: usize },
    ReadAt { offset: u64, len: usize },
    WriteAt { offset: u64, len: usize },
    Nop,
    PollAdd(u32),
}

/// The emulator operation an operation description stands for.
pub open spec fn op_type_of(op: OpBuilder) -> OpType {
    match op {
        OpBuilder::Read { len } => OpType::Read { len },
        OpBuilder::Write { len } => OpType::Write { len },
        OpBuilder::ReadAt { offset, len } => OpType::ReadAt { offset, len },
        OpBuilder::WriteAt { offset, len } => OpType::WriteAt { offset, len },
        OpBuilder::Nop => OpType::Nop,
        OpBuilder::PollAdd(m) => OpType::PollAdd(m),
    }
}

/// An operation on a file descriptor, tagged with the caller's user data.
pub struct UringOpBuilder {
    pub fd: i32,
    pub op: OpBuilder,
    pub user_data: u64,
}

impl UringOpBuilder {
    /// Read `len` bytes from `fd`.
    pub fn read(fd: i32, len: usize) -> (r: Self)
        ensures
            r.fd == fd && r.op == (OpBuilder::Read { len }) && r.user_data == 0,
    {
        Self { fd, op: OpBuilder::Read { len }, user_data: 0 }
    }

    /// Write `len` bytes to `fd`.
    pub fn write(fd: i32, len: usize) -> (r: Self)
        ensures
            r.fd == fd && r.op == (OpBuilder::Write { len }) && r.user_data == 0,
    {
        Self { fd, op: OpBuilder::Write { len }, user_data: 0 }
    }

    /// Read `len` bytes from `fd` at `offset`.
    pub fn read_at(fd: i32, offset: u64, len: usize) -> (r: Self)
        ensures
            r.fd == fd && r.op == (OpBuilder::ReadAt { offset, len }) && r.user_data == 0,
    {
        Self { fd, op: OpBuilder::ReadAt { offset, len }, user_data: 0 }
    }

    /// Write `len` bytes to `fd` at `offset`.
    pub fn write_at(fd: i32, offset: u64, len: usize) -> (r: Self)
        ensures
            r.fd == fd && r.op == (OpBuilder::WriteAt { offset, len }) && r.user_data == 0,
    {
        Self { fd, op: OpBuilder::WriteAt { offset, len }, user_data: 0 }
    }

    /// An operation that does nothing; it has no file descriptor (-1).
    pub fn nop() -> (r: Self)
        ensures
            r.fd == -1 && r.op == OpBuilder::Nop && r.user_data == 0,
    {
        Self { fd: -1, op: OpBuilder::Nop, user_data: 0 }
    }

    /// Wait for the events of `poll_mask` on `fd`.
    pub fn poll_add(fd: i32, poll_mask: u32) -> (r: Self)
        ensures
            r.fd == fd && r.op == OpBuilder::PollAdd(poll_mask) && r.user_data == 0,
    {
        Self { fd, op: OpBuilder::PollAdd(poll_mask), user_data: 0 }
    }

    /// Tag the operation with user data.
    pub fn user_data(self, ud: u64) -> (r: Self)
        ensures
            r.fd == self.fd && r.op == self.op && r.user_data == ud,
    {
        Self { fd: self.fd, op: self.op, user_data: ud }
    }

    /// The queued form of the operation, as submitting it queues it: reads
    /// and writes carry a zeroed buffer of their length, positioned ones
    /// their offset.
    pub fn into_pending(self) -> (r: PendingOp)
        ensures
            r.fd == if self.op is Nop {
                -1i32
            } else {
                self.fd
            },
            r.op == op_type_of(self.op),
            r.user_data == self.user_data,
            buf_view(r.buf) == buffer_of(self.op),
            r.offset == offset_of(self.op),
    {
        match self.op {
            OpBuilder::Read { len } => PendingOp::read(self.fd, &zeroed(len), self.user_data),
            OpBuilder::Write { len } => PendingOp::write(self.fd, &zeroed(len), self.user_data),
            OpBuilder::ReadAt { offset, len } => PendingOp::read_at(
                self.fd,
                offset,
                &zeroed(len),
                self.user_data,
            ),
            OpBuilder::WriteAt { offset, len } => PendingOp::write_at(
                self.fd,
                offset,
                &zeroed(len),
                self.user_data,
            ),
            OpBuilder::Nop => PendingOp::nop(self.user_data),
            OpBuilder::PollAdd(m) => PendingOp::poll_add(self.fd, m, self.user_data),
        }
    }
}

/// The buffer a submitted operation carries: zeros of its length for reads
/// and writes, none otherwise.
pub open spec fn buffer_of(op: OpBuilder) -> Option<Seq<u8>> {
    match op {
        OpBuilder::Read { len } => Some(Seq::new(len as nat, |i: int| 0u8)),
        OpBuilder::Write { len } => Some(Seq::new(len as nat, |i: int| 0u8)),
        OpBuilder::ReadAt { len, .. } => Some(Seq::new(len as nat, |i: int| 0u8)),
        OpBuilder::WriteAt { len, .. } => Some(Seq::new(len as nat, |i: int| 0u8)),
        _ => None,
    }
}

/// The offset a submitted operation carries.
pub open spec fn offset_of(op: OpBuilder) -> Option<u64> {
    match op {
        OpBuilder::ReadAt { offset, .. } => Some(offset),
        OpBuilder::WriteAt { offset, .. } => Some(offset),
        _ => None,
    }
}

/// The buffer of an operation as plain bytes.
pub open spec fn buf_view(b: Option<Vec<u8>>) -> Option<Seq<u8>> {
    match b {
        Some(v) => Some(v@),
        None => None,
    }
}

fn zeroed(len: usize) -> (r: Vec<u8>)
    ensures
        r@ == Seq::new(len as nat, |i: int| 0u8),
{
    let mut v: Vec<u8> = Vec::with_capacity(len);
    let mut i: usize = 0;
    while i < len
        invariant
            i <= len,
            v@ == Seq::new(i as nat, |k: int| 0u8),
        decreases len - i,
    {
        v.push(0);
        i = i + 1;
        proof {
            assert(v@ =~= Seq::new(i as nat, |k: int| 0u8));
        }
    }
    v
}

fn copy_bytes(buf: &[u8]) -> (r: Vec<u8>)
    ensures
        r@ == buf@,
{
    let r = crate::scan::copy_range(buf, 0, buf.len());
    assert(buf@.subrange(0, buf@.len() as int) =~= buf@);
    r
}

impl PendingOp {
    /// A read of `buf.len()` bytes from `fd`, carrying a copy of `buf`.
    pub fn read(fd: i32, buf: &[u8], user_data: u64) -> (r: Self)
        ensures
            r.fd == fd && r.op == (OpType::Read { len: buf@.len() as usize }),
            r.user_data == user_data && buf_view(r.buf) == Some(buf@) && r.offset is None,
    {
        PendingOp { fd, op: OpType::Read { len: buf.len() }, user_data, buf: Some(copy_bytes(buf)), offset: None }
    }

    /// A write of `buf` to `fd`.
    pub fn write(fd: i32, buf: &[u8], user_data: u64) -> (r: Self)
        ensures
            r.fd == fd && r.op == (OpType::Write { len: buf@.len() as usize }),
            r.user_data == user_data && buf_view(r.buf) == Some(buf@) && r.offset is None,
    {
        PendingOp { fd, op: OpType::Write { len: buf.len() }, user_data, buf: Some(copy_bytes(buf)), offset: None }
    }

    /// A read of `buf.len()` bytes from `fd` at `offset`.
    pub fn read_at(fd: i32, offset: u64, buf: &[u8], user_data: u64) -> (r: Self)
        ensures
            r.fd == fd && r.op == (OpType::ReadAt { offset, len: buf@.len() as usize }),
            r.user_data == user_data && buf_view(r.buf) == Some(buf@) && r.offset == Some(offset),
    {
        PendingOp {
            fd,
            op: OpType::ReadAt { offset, len: buf.len() },
            user_data,
            buf: Some(copy_bytes(buf)),
            offset: Some(offset),
        }
    }

    /// A write of `buf` to `fd` at `offset`.
    pub fn write_at(fd: i32, offset: u64, buf: &[u8], user_data: u64) -> (r: Self)
        ensures
            r.fd == fd && r.op == (OpType::WriteAt { offset, len: buf@.len() as usize }),
            r.user_data == user_data && buf_view(r.buf) == Some(buf@) && r.offset == Some(offset),
    {
        PendingOp {
            fd,
            op: OpType::WriteAt { offset, len: buf.len() },
            user_data,
            buf: Some(copy_bytes(buf)),
            offset: Some(offset),
        }
    }

    /// An operation that does nothing, on no file descriptor.
    pub fn nop(user_data: u64) -> (r: Self)
        ensures
            r.fd == -1 && r.op == OpType::Nop && r.user_data == user_data,
            r.buf is None && r.offset is None,
    {
        PendingOp { fd: -1, op: OpType::Nop, user_data, buf: None, offset: None }
    }

    /// A wait for the events of `poll_mask` on `fd`.
    pub fn poll_add(fd: i32, poll_mask: u32, user_data: u64) -> (r: Self)
        ensures
            r.fd == fd && r.op == OpType::PollAdd(poll_mask) && r.user_data == user_data,
            r.buf is None && r.offset is None,
    {
        PendingOp { fd, op: OpType::PollAdd(poll_mask), user_data, buf: None, offset: None }
    }
}

} // verus!
