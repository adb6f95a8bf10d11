//! The parameters exchanged with the kernel when an io_uring instance is set
//! up, and the counters of the direct-syscall path.
use vstd::prelude::*;

verus! {

/// Offsets of the submission ring's fields, as the kernel reports them.
#[derive(Clone, Copy)]
pub struct IoUringSqringOffsets {
    pub head: u32,
    pub tail: u32,
    pub ring_mask: u32,
    pub ring_entries: u32,
    pub flags: u32,
    pub dropped: u32,
    pub array: u32,
    pub resv1: u32,
    pub resv2: u64,
}

/// Offsets of the completion ring's fields, as the kernel reports them.
#[derive(Clone, Copy)]
pub struct IoUringCqringOffsets {
    pub head: u32,
    pub tail: u32,
    pub ring_mask: u32,
    pub ring_entries: u32,
    pub overflow: u32,
    pub cqes: u32,
    pub flags: u32,
    pub resv1: u32,
    pub resv2: u64,
}

/// Parameters of an io_uring instance: what is asked of the kernel and
/// what it reports back.
#[derive(Clone, Copy)]
pub struct IoUringParams {
    pub sq_entries: u32,
    pub cq_entries: u32,
    pub flags: u32,
    pub sq_thread_cpu: u32,
    pub sq_thread_idle: u32,
    pub features: u32,
    pub wq_fd: u32,
    pub resv: [u32; 3],
    pub sq_off: IoUringSqringOffsets,
    pub cq_off: IoUringCqringOffsets,
}

impl IoUringSqringOffsets {
    pub fn zeroed() -> (r: Self)
        ensures
            r.head == 0 && r.tail == 0 && r.ring_mask == 0 && r.ring_entries == 0,
            r.flags == 0 && r.dropped == 0 && r.array == 0 && r.resv1 == 0 && r.resv2 == 0,
    {
        Self {
            head: 0,
            tail: 0,
            ring_mask: 0,
            ring_entries: 0,
            flags: 0,
            dropped: 0,
            array: 0,
            resv1: 0,
            resv2: 0,
        }
    }
}

impl IoUringCqringOffsets {
    pub fn zeroed() -> (r: Self)
        ensures
            r.head == 0 && r.tail == 0 && r.ring_mask == 0 && r.ring_entries == 0,
            r.overflow == 0 && r.cqes == 0 && r.flags == 0 && r.resv1 == 0 && r.resv2 == 0,
    {
        Self {
            head: 0,
            tail: 0,
            ring_mask: 0,
            ring_entries: 0,
            overflow: 0,
            cqes: 0,
            flags: 0,
            resv1: 0,
            resv2: 0,
        }
    }
}

impl IoUringParams {
    /// All fields zero, as the kernel expects them before it fills them in.
    pub fn zeroed() -> (r: Self)
        ensures
            r.sq_entries == 0 && r.cq_entries == 0 && r.flags == 0,
            r.sq_thread_cpu == 0 && r.sq_thread_idle == 0 && r.features == 0 && r.wq_fd == 0,
            r.resv@ == seq![0u32, 0u32, 0u32],
            r.sq_off == IoUringSqringOffsets::zeroed_spec(),
            r.cq_off == IoUringCqringOffsets::zeroed_spec(),
    {
        Self {
            sq_entries: 0,
            cq_entries: 0,
            flags: 0,
            sq_thread_cpu: 0,
            sq_thread_idle: 0,
            features: 0,
            wq_fd: 0,
            resv: [0, 0, 0],
            sq_off: IoUringSqringOffsets::zeroed(),
            cq_off: IoUringCqringOffsets::zeroed(),
        }
    }

    /// The parameters the densified kernel path sets up with: 128
    /// submission entries, 256 completion entries, everything else zero.
    pub fn densified() -> (r: Self)
        ensures
            r.sq_entries == 128 && r.cq_entries == 256 && r.flags == 0,
            r.sq_thread_cpu == 0 && r.sq_thread_idle == 0 && r.features == 0 && r.wq_fd == 0,
            r.resv@ == seq![0u32, 0u32, 0u32],
            r.sq_off == IoUringSqringOffsets::zeroed_spec(),
            r.cq_off == IoUringCqringOffsets::zeroed_spec(),
    {
        let mut p = Self::zeroed();
        p.sq_entries = 128;
        p.cq_entries = 256;
        p
    }
}

impl IoUringSqringOffsets {
    pub open spec fn zeroed_spec() -> Self {
        IoUringSqringOffsets {
            head: 0,
            tail: 0,
            ring_mask: 0,
            ring_entries: 0,
            flags: 0,
            dropped: 0,
            array: 0,
            resv1: 0,
            resv2: 0,
        }
    }
}

impl IoUringCqringOffsets {
    pub open spec fn zeroed_spec() -> Self {
        IoUringCqringOffsets {
            head: 0,
            tail: 0,
            ring_mask: 0,
            ring_entries: 0,
            overflow: 0,
            cqes: 0,
            flags: 0,
            resv1: 0,
            resv2: 0,
        }
    }
}

/// Counts of the calls made on the direct-syscall path; both wrap around
/// after `u64::MAX`.
pub struct SyscallCounters {
    pub syscall_count: u64,
    pub bypass_count: u64,
}

impl SyscallCounters {
    pub fn new() -> (r: Self)
        ensures
            r.syscall_count == 0 && r.bypass_count == 0,
    {
        Self { syscall_count: 0, bypass_count: 0 }
    }

    /// One more call that bypassed the C library.
    pub fn record_bypass(&mut self)
        ensures
            final(self).bypass_count == old(self).bypass_count.wrapping_add(1),
            final(self).syscall_count == old(self).syscall_count,
    {
        self.bypass_count = self.bypass_count.wrapping_add(1);
    }

    /// `(syscalls, bypassed calls)`
    pub fn metrics(&self) -> (r: (u64, u64))
        ensures
            r == (self.syscall_count, self.bypass_count),
    {
        (self.syscall_count, self.bypass_count)
    }
}

} // verus!
