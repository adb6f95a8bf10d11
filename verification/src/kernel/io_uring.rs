//! io_uring submission and completion records, the kernel operation table,
//! and the ring index arithmetic of the submission and completion queues.
use vstd::prelude::*;
use vstd::wrapping::u32_specs::{wrapping_add, wrapping_sub};
use crate::kernel::ebpf::address_of;
use crate::kernel::endgame_bypass::IoUringParams;

verus! {

pub const IORING_SETUP_IOPOLL: u32 = 1;
pub const IORING_SETUP_SQPOLL: u32 = 2;
pub const IORING_SETUP_SQ_AFF: u32 = 4;
pub const IORING_SETUP_CQSIZE: u32 = 8;
pub const IORING_SETUP_SINGLE_ISSUER: u32 = 4096;
pub const IORING_SETUP_DEFER_TASKRUN: u32 = 8192;

/// io_uring syscall numbers (x86_64)
pub const SYS_IO_URING_SETUP: i64 = 425;
pub const SYS_IO_URING_ENTER: i64 = 426;
pub const SYS_IO_URING_REGISTER: i64 = 427;

/// Offset of the completion ring in the io_uring mapping.
pub const IORING_OFF_CQ_RING: i64 = 0x8000000;
/// Offset of the submission entries in the io_uring mapping.
pub const IORING_OFF_SQES: i64 = 0x10000000;

/// io_uring operation code.
#[derive(Debug, Clone, Copy, PartialEq, Eq, Structural)]
pub struct OpCode(pub u8);

/// The numeric operation codes.
impl OpCode {
    pub const NOP: u8 = 0;
    pub const READV: u8 = 1;
    pub const WRITEV: u8 = 2;
    pub const READ_FIXED: u8 = 4;
    pub const WRITE_FIXED: u8 = 5;
    pub const POLL_ADD: u8 = 6;
    pub const POLL_REMOVE: u8 = 7;
    pub const RECV: u8 = 10;
    pub const SEND: u8 = 11;
}

/// Names of the operations of the kernel dispatch table, in table order.
pub open spec fn kernel_op_names() -> Seq<Seq<char>> {
    seq!["read"@, "write"@, "recv"@, "send"@]
}

/// Opcodes of the kernel dispatch table, in table order.
pub open spec fn kernel_op_codes() -> Seq<u8> {
    seq![1u8, 2u8, 10u8, 11u8]
}

/// Kernel dispatch table: operation name and its opcode.
pub fn kernel_ops() -> (r: Vec<(&'static str, OpCode)>)
    ensures
        r@.len() == 4,
        forall|i: int| 0 <= i < 4 ==> (#[trigger] r@[i]).0@ == kernel_op_names()[i] && r@[i].1.0
            == kernel_op_codes()[i],
{
    let mut v: Vec<(&'static str, OpCode)> = Vec::new();
    v.push(("read", OpCode(OpCode::READV)));
    v.push(("write", OpCode(OpCode::WRITEV)));
    v.push(("recv", OpCode(OpCode::RECV)));
    v.push(("send", OpCode(OpCode::SEND)));
    v
}

/// Submission queue entry - kernel ABI compatible
#[derive(Debug, Clone, Copy)]
pub struct KernelSQE {
    pub opcode: u8,
    pub flags: u8,
    pub ioprio: u16,
    pub fd: i32,
    pub off_addr2: u64,
    pub addr: u64,
    pub len: u32,
    pub rw_flags: u32,
    pub user_data: u64,
    pub buf_index: u16,
    pub personality: u16,
    pub splice_fd_in: i32,
    pub addr3: u64,
    pub resv: u64,
}

/// Completion queue entry - kernel ABI compatible
#[derive(Debug, Clone, Copy)]
pub struct KernelCQE {
    pub user_data: u64,
    pub res: i32,
    pub flags: u32,
}

/// The flags a kernel ring is set up with: a single submitting task whose
/// completions run deferred.
pub fn setup_flags() -> (r: u32)
    ensures
        r == IORING_SETUP_SINGLE_ISSUER | IORING_SETUP_DEFER_TASKRUN,
{
    IORING_SETUP_SINGLE_ISSUER | IORING_SETUP_DEFER_TASKRUN
}

/// Bytes of one submission entry and of one completion entry.
pub const SQE_BYTES: usize = 64;
pub const CQE_BYTES: u32 = 16;

/// Sizes of the three regions of a kernel ring and the masks of its two
/// queues, as the kernel's setup parameters determine them.
pub struct RingLayout {
    /// Bytes of the submission ring: up to the end of its index array.
    pub sq_ring_size: u32,
    /// Bytes of the completion ring: up to the end of its entries.
    pub cq_ring_size: u32,
    /// Bytes of the submission entries.
    pub sqes_size: usize,
    pub sq_mask: u32,
    pub cq_mask: u32,
}

/// The setup parameters from which a ring's layout is computed without
/// overflow: both queues have entries and every size fits its type.
pub open spec fn layout_computable(p: IoUringParams) -> bool {
    &&& p.sq_entries >= 1
    &&& p.cq_entries >= 1
    &&& p.sq_off.array + p.sq_entries * 4 <= u32::MAX
    &&& p.cq_off.cqes + p.cq_entries * CQE_BYTES <= u32::MAX
    &&& p.sq_entries * SQE_BYTES <= usize::MAX
}

/// The layout of the ring the kernel described in `p`.
pub fn ring_layout(p: &IoUringParams) -> (r: RingLayout)
    requires
        layout_computable(*p),
    ensures
        r.sq_ring_size == p.sq_off.array + p.sq_entries * 4,
        r.cq_ring_size == p.cq_off.cqes + p.cq_entries * CQE_BYTES,
        r.sqes_size == p.sq_entries * SQE_BYTES,
        r.sq_mask == p.sq_entries - 1,
        r.cq_mask == p.cq_entries - 1,
{
    RingLayout {
        sq_ring_size: p.sq_off.array + p.sq_entries * 4,
        cq_ring_size: p.cq_off.cqes + p.cq_entries * CQE_BYTES,
        sqes_size: p.sq_entries as usize * SQE_BYTES,
        sq_mask: p.sq_entries - 1,
        cq_mask: p.cq_entries - 1,
    }
}

/// Whether a ring's layout can be computed from the kernel's parameters.
pub fn layout_computable_check(p: &IoUringParams) -> (r: bool)
    ensures
        r == layout_computable(*p),
{
    p.sq_entries >= 1 && p.cq_entries >= 1 && p.sq_entries <= (u32::MAX - p.sq_off.array) / 4
        && p.cq_entries <= (u32::MAX - p.cq_off.cqes) / CQE_BYTES && (p.sq_entries as usize)
        <= usize::MAX / SQE_BYTES
}

/// Number of entries between a ring's head and tail; both indices run
/// freely and wrap at 2^32.
pub open spec fn ring_used(head: u32, tail: u32) -> u32 {
    wrapping_sub(tail, head)
}

/// Where the next submission goes: `None` when the ring holds `entries`
/// pending submissions already; otherwise the slot `tail & mask` and the
/// advanced tail.
pub fn plan_submit(head: u32, tail: u32, entries: u32, mask: u32) -> (r: Option<(u32, u32)>)
    ensures
        r is None <==> ring_used(head, tail) >= entries,
        r matches Some((slot, new_tail)) ==> slot == tail & mask && new_tail == wrapping_add(
            tail,
            1,
        ),
{
    if tail.wrapping_sub(head) >= entries {
        None
    } else {
        Some((tail & mask, tail.wrapping_add(1)))
    }
}

/// How many of `count` submissions fit in the ring, given that `used` of its
/// `entries` are taken.
pub open spec fn bulk_count(used: u32, entries: u32, count: usize) -> nat {
    if count < entries - used {
        count as nat
    } else {
        (entries - used) as nat
    }
}

/// Plan a bulk submission of `count` entries: the slots to fill, in order,
/// and the tail after them. The `i`-th entry goes to `(tail + i) & mask`.
pub fn plan_bulk(head: u32, tail: u32, entries: u32, mask: u32, count: usize) -> (r: (
    Vec<u32>,
    u32,
))
    requires
        ring_used(head, tail) <= entries,
        tail + bulk_count(ring_used(head, tail), entries, count) <= u32::MAX + 1,
    ensures
        r.0@.len() == bulk_count(ring_used(head, tail), entries, count),
        forall|i: int| 0 <= i < r.0@.len() ==> #[trigger] r.0@[i] == ((tail + i) as u32) & mask,
        r.1 == wrapping_add(tail, r.0@.len() as u32),
{
    let available = entries - tail.wrapping_sub(head);
    let to_submit: u32 = if count < available as usize {
        count as u32
    } else {
        available
    };
    let mut slots: Vec<u32> = Vec::with_capacity(to_submit as usize);
    let mut i: u32 = 0;
    while i < to_submit
        invariant
            i <= to_submit,
            to_submit == bulk_count(ring_used(head, tail), entries, count),
            tail + to_submit <= u32::MAX + 1,
            slots@.len() == i,
            forall|k: int| 0 <= k < i ==> #[trigger] slots@[k] == ((tail + k) as u32) & mask,
        decreases to_submit - i,
    {
        slots.push((tail + i) & mask);
        i = i + 1;
    }
    (slots, tail.wrapping_add(to_submit))
}

/// Ring positions of the completions between `head` and `tail`, in order:
/// the `i`-th ready completion is at `(head + i) & mask`. The consumer then
/// moves its head to `tail`.
pub fn plan_reap(head: u32, tail: u32, mask: u32) -> (r: Vec<u32>)
    requires
        head + ring_used(head, tail) <= u32::MAX + 1,
    ensures
        r@.len() == ring_used(head, tail),
        forall|i: int| 0 <= i < r@.len() ==> #[trigger] r@[i] == ((head + i) as u32) & mask,
{
    let ready = tail.wrapping_sub(head);
    let mut idx: Vec<u32> = Vec::new();
    let mut i: u32 = 0;
    while i < ready
        invariant
            i <= ready,
            ready == ring_used(head, tail),
            head + ready <= u32::MAX + 1,
            idx@.len() == i,
            forall|k: int| 0 <= k < i ==> #[trigger] idx@[k] == ((head + k) as u32) & mask,
        decreases ready - i,
    {
        idx.push((head + i) & mask);
        i = i + 1;
    }
    idx
}

/// A slot index masked by `entries - 1` lies inside a ring whose size is a
/// power of two.
pub proof fn law_slot_in_ring(pos: u32, mask: u32)
    ensures
        pos & mask <= mask,
{
    assert(pos & mask <= mask) by (bit_vector);
}

/// A submission never lands on an entry the kernel has not consumed yet:
/// with `used` entries pending after `head` in a ring of `mask + 1`
/// entries (a power of two), the slot of the tail differs from the slot of
/// every pending entry, even when the indices wrap around.
pub proof fn law_submit_slot_free(head: u32, used: u32, k: u32, mask: u32)
    requires
        mask < u32::MAX && mask & ((mask + 1) as u32) == 0,
        k < used,
        used <= mask,
    ensures
        wrapping_add(head, k) & mask != wrapping_add(head, used) & mask,
{
    let a = wrapping_add(head, k);
    let b = wrapping_add(head, used);
    assert(a == ((head as int + k as int) % 0x1_0000_0000) as u32);
    assert(b == ((head as int + used as int) % 0x1_0000_0000) as u32);
    assert(a & mask != b & mask) by (bit_vector)
        requires
            mask < u32::MAX && mask & ((mask + 1) as u32) == 0,
            k < used,
            used <= mask,
            a == ((head + k) % 0x1_0000_0000) as u32,
            b == ((head + used) % 0x1_0000_0000) as u32,
    ;
}

/// The entries of one bulk submission go to distinct slots: no two of them
/// overwrite each other, as long as no more than the ring's size are
/// placed.
pub proof fn law_bulk_slots_distinct(tail: u32, mask: u32, i: u32, j: u32)
    requires
        mask < u32::MAX && mask & ((mask + 1) as u32) == 0,
        i < j,
        j <= mask,
        tail + j <= u32::MAX,
    ensures
        ((tail + i) as u32) & mask != ((tail + j) as u32) & mask,
{
    let a: u32 = (tail + i) as u32;
    let b: u32 = (tail + j) as u32;
    assert(b - a == j - i);
    assert(a & mask != b & mask) by (bit_vector)
        requires
            mask < u32::MAX && mask & ((mask + 1) as u32) == 0,
            a < b,
            b - a <= mask,
    ;
}

/// The result of the first completion carrying `user_data`, if any.
pub open spec fn completion_for(cqes: Seq<KernelCQE>, user_data: u64) -> Option<i32>
    decreases cqes.len(),
{
    if cqes.len() == 0 {
        None
    } else if cqes[0].user_data == user_data {
        Some(cqes[0].res)
    } else {
        completion_for(cqes.drop_first(), user_data)
    }
}

/// Find the result of the first completion carrying `user_data`.
pub fn find_completion(cqes: &[KernelCQE], user_data: u64) -> (r: Option<i32>)
    ensures
        r == completion_for(cqes@, user_data),
{
    let mut i: usize = 0;
    assert(cqes@.subrange(0, cqes@.len() as int) =~= cqes@);
    while i < cqes.len()
        invariant
            i <= cqes@.len(),
            completion_for(cqes@, user_data) == completion_for(cqes@.subrange(i as int, cqes@.len() as int), user_data),
        decreases cqes@.len() - i,
    {
        let ghost rest = cqes@.subrange(i as int, cqes@.len() as int);
        assert(rest.drop_first() =~= cqes@.subrange(i + 1, cqes@.len() as int));
        if cqes[i].user_data == user_data {
            return Some(cqes[i].res);
        }
        i = i + 1;
    }
    None
}

/// Opcode of a named kernel operation in the dispatch table.
pub open spec fn kernel_op_code(op: Seq<char>) -> Option<u8> {
    if op == "read"@ {
        Some(1u8)
    } else if op == "write"@ {
        Some(2u8)
    } else if op == "recv"@ {
        Some(10u8)
    } else if op == "send"@ {
        Some(11u8)
    } else {
        None
    }
}

/// Look an operation name up in the dispatch table.
pub fn lookup_kernel_op(op: &str) -> (r: Option<u8>)
    ensures
        r == kernel_op_code(op@),
{
    let key = String::from_str(op);
    let ops = kernel_ops();
    let mut i: usize = 0;
    while i < ops.len()
        invariant
            i <= 4,
            ops@.len() == 4,
            key@ == op@,
            forall|k: int| 0 <= k < 4 ==> (#[trigger] ops@[k]).0@ == kernel_op_names()[k] && ops@[k].1.0
                == kernel_op_codes()[k],
            forall|k: int| 0 <= k < i ==> kernel_op_names()[k] != op@,
        decreases 4 - i,
    {
        let name = String::from_str(ops[i].0);
        if name == key {
            return Some(ops[i].1.0);
        }
        i = i + 1;
    }
    assert(kernel_op_names()[0] == "read"@);
    assert(kernel_op_names()[1] == "write"@);
    assert(kernel_op_names()[2] == "recv"@);
    assert(kernel_op_names()[3] == "send"@);
    None
}

/// The submission entry for a dispatched operation on a buffer of
/// `data_len` bytes at `addr`, tagged with `user_data`: no file, the
/// length truncated to 32 bits, every other field zero.
pub open spec fn dispatch_entry(opcode: u8, addr: u64, data_len: nat, user_data: u64) -> KernelSQE {
    KernelSQE {
        opcode,
        flags: 0u8,
        ioprio: 0u16,
        fd: -1i32,
        off_addr2: 0u64,
        addr,
        len: data_len as u32,
        rw_flags: 0u32,
        user_data,
        buf_index: 0u16,
        personality: 0u16,
        splice_fd_in: 0i32,
        addr3: 0u64,
        resv: 0u64,
    }
}

/// Build the submission entry for a named operation, or `None` for an
/// operation that is not in the dispatch table.
pub fn build_dispatch_sqe(op: &str, addr: u64, data_len: usize, user_data: u64) -> (r: Option<
    KernelSQE,
>)
    ensures
        match kernel_op_code(op@) {
            None => r is None,
            Some(code) => r == Some(dispatch_entry(code, addr, data_len as nat, user_data)),
        },
{
    match lookup_kernel_op(op) {
        None => None,
        Some(code) => Some(
            KernelSQE {
                opcode: code,
                flags: 0,
                ioprio: 0,
                fd: -1,
                off_addr2: 0,
                addr,
                len: #[verifier::truncate]
                (data_len as u32),
                rw_flags: 0,
                user_data,
                buf_index: 0,
                personality: 0,
                splice_fd_in: 0,
                addr3: 0,
                resv: 0,
            },
        ),
    }
}

/// The 64-bit XXH3 hash of a byte string.
pub uninterp spec fn xxh3_64_of(data: Seq<u8>) -> u64;

/// Calls `xxhash_rust::xxh3::xxh3_64`, which hashes its input with the
/// default secret and no seed; the result is a function of the bytes alone.
#[verifier::external_body]
fn xxh3_64(data: &[u8]) -> (r: u64)
    ensures
        r == xxh3_64_of(data@),
{
    xxhash_rust::xxh3::xxh3_64(data)
}

/// The submission entry that dispatches `data` under a named operation: it
/// points at the buffer and carries the buffer's XXH3 hash as user data.
pub fn kernel_dispatch_sqe(op: &str, data: &[u8]) -> (r: Option<KernelSQE>)
    ensures
        match kernel_op_code(op@) {
            None => r is None,
            Some(code) => r matches Some(e) && e == dispatch_entry(
                code,
                e.addr,
                data@.len(),
                xxh3_64_of(data@),
            ),
        },
{
    let hash = xxh3_64(data);
    let addr = address_of(data);
    build_dispatch_sqe(op, addr, data.len(), hash)
}

} // verus!
