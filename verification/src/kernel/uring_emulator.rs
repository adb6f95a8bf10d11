//! Bookkeeping of the epoll-based io_uring emulator: the queue of pending
//! operations, per-descriptor readiness, the epoll registrations it asks
//! for, which operations are ready to run, and how each outcome completes.
//! The system calls themselves are made by the caller.
use vstd::prelude::*;

verus! {

/// The I/O error type carried by completions.
#[verifier::external_type_specification]
#[verifier::external_body]
pub struct ExIoError(std::io::Error);

pub const EPOLLIN: u32 = 0x1;
pub const EPOLLOUT: u32 = 0x4;
pub const EPOLLERR: u32 = 0x8;

/// Kind of a queued operation.
#[derive(Debug, Clone, Copy, PartialEq, Eq, Structural)]
pub enum OpType {
    Read { len: usize },
    Write { len: usize },
    ReadAt { offset: u64, len: usize },
    WriteAt { offset: u64, len: usize },
    Nop,
    PollAdd(u32),
}

/// A queued operation.
pub struct PendingOp {
    pub fd: i32,
    pub op: OpType,
    pub user_data: u64,
    pub buf: Option<Vec<u8>>,
    pub offset: Option<u64>,
}

/// A finished operation.
pub struct CompletedOp {
    pub user_data: u64,
    pub result: Result<usize, std::io::Error>,
}

/// Readiness known for a registered descriptor.
#[derive(Debug, Clone, Copy, PartialEq, Eq, Structural)]
pub struct FdOpState {
    pub readable: bool,
    pub writable: bool,
    pub registered: bool,
}

/// An `epoll_ctl` call the emulator needs.
#[derive(Debug, Clone, Copy, PartialEq, Eq, Structural)]
pub enum EpollRequest {
    /// Register a new descriptor; the registration is recorded only once
    /// the call succeeded.
    Add { fd: i32, events: u32 },
    /// Update the events of a registered descriptor.
    Modify { fd: i32, events: u32 },
}

/// The system call that runs an operation.
#[derive(Debug, Clone)]
pub enum SyscallRequest {
    /// `read(fd, buf, len)` into a scratch buffer.
    Read { fd: i32, len: usize },
    /// `write(fd, data, data.len())`.
    Write { fd: i32, data: Vec<u8> },
    /// `pread(fd, buf, len, offset)`.
    ReadAt { fd: i32, len: usize, offset: u64 },
    /// `pwrite(fd, data, data.len(), offset)`.
    WriteAt { fd: i32, data: Vec<u8>, offset: u64 },
    /// No call: the operation completes at once with 0.
    Nothing,
}

/// What a system call gave.
pub enum IoOutcome {
    Done(usize),
    WouldBlock(std::io::Error),
    Failed(std::io::Error),
}

/// The `len` bytes a write sends: the operation's buffer, cut to `len`
/// bytes or filled up with zero bytes when it is shorter (or missing).
pub open spec fn outgoing_bytes(buf: Option<Vec<u8>>, len: usize) -> Seq<u8> {
    let b = match buf {
        Some(v) => v@,
        None => Seq::<u8>::empty(),
    };
    Seq::new(len as nat, |i: int| if i < b.len() { b[i] } else { 0u8 })
}

/// Whether `r` is the system call for an operation: reads of the
/// operation's length, writes of its outgoing bytes, at its offset where it
/// has one, and nothing for a no-op or a poll.
pub open spec fn is_syscall_for(r: SyscallRequest, op: PendingOp) -> bool {
    match op.op {
        OpType::Read { len } => r == SyscallRequest::Read { fd: op.fd, len },
        OpType::Write { len } => r matches SyscallRequest::Write { fd, data } && fd == op.fd
            && data@ == outgoing_bytes(op.buf, len),
        OpType::ReadAt { offset, len } => r == SyscallRequest::ReadAt { fd: op.fd, len, offset },
        OpType::WriteAt { offset, len } => r matches SyscallRequest::WriteAt { fd, data, offset: o }
            && fd == op.fd && o == offset && data@ == outgoing_bytes(op.buf, len),
        OpType::Nop | OpType::PollAdd(_) => r is Nothing,
    }
}

/// Whether an outcome of an operation is recorded as a completion: a
/// plain read or write that would block is dropped.
pub open spec fn completes(op: OpType, outcome: IoOutcome) -> bool {
    match op {
        OpType::Read { .. } | OpType::Write { .. } => !(outcome is WouldBlock),
        _ => true,
    }
}

/// The result recorded for an operation's outcome.
pub open spec fn result_of(op: OpType, outcome: IoOutcome) -> Result<usize, std::io::Error> {
    match op {
        OpType::Nop | OpType::PollAdd(_) => Ok(0),
        _ => match outcome {
            IoOutcome::Done(n) => Ok(n),
            IoOutcome::WouldBlock(e) => Err(e),
            IoOutcome::Failed(e) => Err(e),
        },
    }
}

/// Events registered for a descriptor: errors always, input and output as
/// asked.
pub open spec fn epoll_events(readable: bool, writable: bool) -> u32 {
    (EPOLLERR | if readable { EPOLLIN } else { 0 }) | if writable { EPOLLOUT } else { 0 }
}

/// Descriptors with distinct entries.
pub open spec fn fds_distinct(fds: Seq<(i32, FdOpState)>) -> bool {
    forall|i: int, j: int|
        0 <= i < fds.len() && 0 <= j < fds.len() && i != j ==> (#[trigger] fds[i]).0 != (
        #[trigger] fds[j]).0
}

/// The readiness state of `fd`, if registered.
pub open spec fn fd_state(fds: Seq<(i32, FdOpState)>, fd: i32) -> Option<FdOpState> {
    if exists|i: int| 0 <= i < fds.len() && (#[trigger] fds[i]).0 == fd {
        Some(fds[choose|i: int| 0 <= i < fds.len() && (#[trigger] fds[i]).0 == fd].1)
    } else {
        None
    }
}

/// Whether a pending operation can run: reads wait for readability and
/// writes for writability of a registered descriptor; operations on an
/// unregistered descriptor, no-ops and polls are always ready.
pub open spec fn op_ready(fds: Seq<(i32, FdOpState)>, op: PendingOp) -> bool {
    match op.op {
        OpType::Read { .. } | OpType::ReadAt { .. } => match fd_state(fds, op.fd) {
            Some(s) => s.readable,
            None => true,
        },
        OpType::Write { .. } | OpType::WriteAt { .. } => match fd_state(fds, op.fd) {
            Some(s) => s.writable,
            None => true,
        },
        OpType::Nop | OpType::PollAdd(_) => true,
    }
}

/// Pending operations that are not ready, in queue order.
pub open spec fn not_ready(fds: Seq<(i32, FdOpState)>, ops: Seq<PendingOp>) -> Seq<PendingOp>
    decreases ops.len(),
{
    if ops.len() == 0 {
        Seq::empty()
    } else if op_ready(fds, ops.last()) {
        not_ready(fds, ops.drop_last())
    } else {
        not_ready(fds, ops.drop_last()).push(ops.last())
    }
}

/// Ready pending operations from the back of the queue to the front: the
/// order in which they run.
pub open spec fn ready_reversed(fds: Seq<(i32, FdOpState)>, ops: Seq<PendingOp>) -> Seq<PendingOp>
    decreases ops.len(),
{
    if ops.len() == 0 {
        Seq::empty()
    } else if op_ready(fds, ops.last()) {
        seq![ops.last()] + ready_reversed(fds, ops.drop_last())
    } else {
        ready_reversed(fds, ops.drop_last())
    }
}

/// State of the emulator, without its system calls.
pub struct UringEmulatorCore {
    entries: usize,
    pending_ops: Vec<PendingOp>,
    completed_ops: Vec<CompletedOp>,
    fd_ops: Vec<(i32, FdOpState)>,
    epoll_fd: Option<i32>,
    user_data_counter: u64,
}

impl UringEmulatorCore {
    pub closed spec fn entries_spec(&self) -> usize {
        self.entries
    }

    pub closed spec fn pending(&self) -> Seq<PendingOp> {
        self.pending_ops@
    }

    pub closed spec fn completed(&self) -> Seq<CompletedOp> {
        self.completed_ops@
    }

    pub closed spec fn fds(&self) -> Seq<(i32, FdOpState)> {
        self.fd_ops@
    }

    pub closed spec fn epoll_spec(&self) -> Option<i32> {
        self.epoll_fd
    }

    /// Descriptors appear once each, and every descriptor in the table is
    /// registered with epoll.
    pub open spec fn wf(&self) -> bool {
        &&& fds_distinct(self.fds())
        &&& forall|i: int| 0 <= i < self.fds().len() ==> (#[trigger] self.fds()[i]).1.registered
    }

    pub fn new(entries: usize, epoll_fd: Option<i32>) -> (r: Self)
        ensures
            r.wf(),
            r.entries_spec() == entries,
            r.epoll_spec() == epoll_fd,
            r.pending().len() == 0,
            r.completed().len() == 0,
            r.fds().len() == 0,
    {
        Self {
            entries,
            pending_ops: Vec::new(),
            completed_ops: Vec::new(),
            fd_ops: Vec::new(),
            epoll_fd,
            user_data_counter: 0,
        }
    }

    pub fn entries(&self) -> (r: usize)
        ensures
            r == self.entries_spec(),
    {
        self.entries
    }

    pub fn epoll_fd(&self) -> (r: Option<i32>)
        ensures
            r == self.epoll_spec(),
    {
        self.epoll_fd
    }

    fn find_fd(&self, fd: i32) -> (r: Option<usize>)
        requires
            self.wf(),
        ensures
            match r {
                Some(i) => i < self.fds().len() && self.fds()[i as int].0 == fd && fd_state(
                    self.fds(),
                    fd,
                ) == Some(self.fds()[i as int].1),
                None => fd_state(self.fds(), fd) is None,
            },
    {
        let mut i: usize = 0;
        while i < self.fd_ops.len()
            invariant
                i <= self.fd_ops@.len(),
                fds_distinct(self.fd_ops@),
                forall|k: int| 0 <= k < i ==> (#[trigger] self.fd_ops@[k]).0 != fd,
            decreases self.fd_ops@.len() - i,
        {
            if self.fd_ops[i].0 == fd {
                proof {
                    let c = choose|k: int|
                        0 <= k < self.fd_ops@.len() && (#[trigger] self.fd_ops@[k]).0 == fd;
                    if c != i {
                        assert(self.fd_ops@[c].0 != self.fd_ops@[i as int].0);
                    }
                }
                return Some(i);
            }
            i = i + 1;
        }
        None
    }

    /// Readiness known for `fd`.
    pub fn state_of(&self, fd: i32) -> (r: Option<FdOpState>)
        requires
            self.wf(),
        ensures
            r == fd_state(self.fds(), fd),
    {
        match self.find_fd(fd) {
            Some(i) => Some(self.fd_ops[i].1),
            None => None,
        }
    }

    /// Ask for `fd` to be watched for input and/or output. Without an epoll
    /// descriptor nothing is needed. A registered descriptor has its
    /// readiness flags widened at once and needs a `Modify` with the union of
    /// old and new interests; a new one needs an `Add`, recorded by
    /// `confirm_add` once the call succeeded.
    pub fn plan_register(&mut self, fd: i32, readable: bool, writable: bool) -> (r: Option<
        EpollRequest,
    >)
        requires
            old(self).wf(),
        ensures
            final(self).wf(),
            final(self).pending() == old(self).pending(),
            final(self).completed() == old(self).completed(),
            final(self).epoll_spec() == old(self).epoll_spec(),
            final(self).entries_spec() == old(self).entries_spec(),
            old(self).epoll_spec() is None ==> r is None && final(self).fds() == old(self).fds(),
            old(self).epoll_spec() is Some ==> match fd_state(old(self).fds(), fd) {
                Some(s) => {
                    &&& r == Some(
                        EpollRequest::Modify {
                            fd,
                            events: epoll_events(readable || s.readable, writable || s.writable),
                        },
                    )
                    &&& fd_state(final(self).fds(), fd) == Some(
                        FdOpState {
                            readable: s.readable || readable,
                            writable: s.writable || writable,
                            registered: true,
                        },
                    )
                    &&& forall|g: i32| g != fd ==> fd_state(final(self).fds(), g) == fd_state(
                        old(self).fds(),
                        g,
                    )
                },
                None => r == Some(EpollRequest::Add { fd, events: epoll_events(readable, writable) })
                    && final(self).fds() == old(self).fds(),
            },
    {
        if self.epoll_fd.is_none() {
            return None;
        }
        match self.find_fd(fd) {
            Some(i) => {
                let s = self.fd_ops[i].1;
                let events: u32 = (EPOLLERR | if readable || s.readable {
                    EPOLLIN
                } else {
                    0
                }) | if writable || s.writable {
                    EPOLLOUT
                } else {
                    0
                };
                let ns = FdOpState {
                    readable: s.readable || readable,
                    writable: s.writable || writable,
                    registered: s.registered,
                };
                let ghost old_fds = self.fd_ops@;
                self.fd_ops.set(i, (fd, ns));
                proof {
                    assert(self.fd_ops@ == old_fds.update(i as int, (fd, ns)));
                    assert(fds_distinct(self.fd_ops@)) by {
                        assert forall|a: int, b: int|
                            0 <= a < self.fd_ops@.len() && 0 <= b < self.fd_ops@.len() && a != b
                                implies (#[trigger] self.fd_ops@[a]).0 != (
                        #[trigger] self.fd_ops@[b]).0 by {
                            assert(old_fds[a].0 == self.fd_ops@[a].0);
                            assert(old_fds[b].0 == self.fd_ops@[b].0);
                        }
                    }
                    assert(self.fd_ops@[i as int].0 == fd);
                    let c = choose|k: int|
                        0 <= k < self.fd_ops@.len() && (#[trigger] self.fd_ops@[k]).0 == fd;
                    if c != i {
                        assert(self.fd_ops@[c].0 != self.fd_ops@[i as int].0);
                    }
                    assert forall|g: i32| g != fd implies fd_state(self.fd_ops@, g) == fd_state(
                        old_fds,
                        g,
                    ) by {
                        assert forall|k: int| 0 <= k < old_fds.len() implies (#[trigger] old_fds[k]).0
                            == g <==> self.fd_ops@[k].0 == g by {}
                        if exists|k: int| 0 <= k < old_fds.len() && (#[trigger] old_fds[k]).0 == g {
                            let k1 = choose|k: int|
                                0 <= k < old_fds.len() && (#[trigger] old_fds[k]).0 == g;
                            assert(self.fd_ops@[k1].0 == g);
                            let k2 = choose|k: int|
                                0 <= k < self.fd_ops@.len() && (#[trigger] self.fd_ops@[k]).0 == g;
                            if k1 != k2 {
                                assert(old_fds[k2].0 == g);
                            }
                            assert(k2 != i);
                        } else {
                            if exists|k: int|
                                0 <= k < self.fd_ops@.len() && (#[trigger] self.fd_ops@[k]).0 == g {
                                let k2 = choose|k: int|
                                    0 <= k < self.fd_ops@.len() && (#[trigger] self.fd_ops@[k]).0
                                        == g;
                                assert(old_fds[k2].0 == g);
                            }
                        }
                    }
                }
                Some(EpollRequest::Modify { fd, events })
            },
            None => {
                let events: u32 = (EPOLLERR | if readable {
                    EPOLLIN
                } else {
                    0
                }) | if writable {
                    EPOLLOUT
                } else {
                    0
                };
                Some(EpollRequest::Add { fd, events })
            },
        }
    }

    /// Record a descriptor whose `Add` registration succeeded.
    pub fn confirm_add(&mut self, fd: i32, readable: bool, writable: bool)
        requires
            old(self).wf(),
            fd_state(old(self).fds(), fd) is None,
        ensures
            final(self).wf(),
            final(self).fds() == old(self).fds().push(
                (fd, FdOpState { readable, writable, registered: true }),
            ),
            fd_state(final(self).fds(), fd) == Some(
                FdOpState { readable, writable, registered: true },
            ),
            final(self).pending() == old(self).pending(),
            final(self).completed() == old(self).completed(),
            final(self).epoll_spec() == old(self).epoll_spec(),
            final(self).entries_spec() == old(self).entries_spec(),
    {
        let ghost old_fds = self.fd_ops@;
        self.fd_ops.push((fd, FdOpState { readable, writable, registered: true }));
        proof {
            let n = old_fds.len() as int;
            assert forall|a: int, b: int|
                0 <= a < self.fd_ops@.len() && 0 <= b < self.fd_ops@.len() && a != b implies (
            #[trigger] self.fd_ops@[a]).0 != (#[trigger] self.fd_ops@[b]).0 by {
                if a == n {
                    assert(self.fd_ops@[b] == old_fds[b]);
                } else if b == n {
                    assert(self.fd_ops@[a] == old_fds[a]);
                } else {
                    assert(self.fd_ops@[a] == old_fds[a]);
                    assert(self.fd_ops@[b] == old_fds[b]);
                }
            }
            assert(self.fd_ops@[n].0 == fd);
            let c = choose|k: int| 0 <= k < self.fd_ops@.len() && (#[trigger] self.fd_ops@[k]).0 == fd;
            if c != n {
                assert(self.fd_ops@[c].0 != self.fd_ops@[n].0);
            }
        }
    }

    /// Queue an operation.
    pub fn push_op(&mut self, op: PendingOp)
        ensures
            final(self).pending() == old(self).pending().push(op),
            final(self).completed() == old(self).completed(),
            final(self).fds() == old(self).fds(),
            final(self).epoll_spec() == old(self).epoll_spec(),
            final(self).entries_spec() == old(self).entries_spec(),
    {
        self.pending_ops.push(op);
    }

    /// Take every pending operation, in queue order, for submission.
    pub fn take_pending(&mut self) -> (r: Vec<PendingOp>)
        ensures
            r@ == old(self).pending(),
            final(self).pending().len() == 0,
            final(self).completed() == old(self).completed(),
            final(self).fds() == old(self).fds(),
            final(self).epoll_spec() == old(self).epoll_spec(),
            final(self).entries_spec() == old(self).entries_spec(),
    {
        let mut taken: Vec<PendingOp> = Vec::new();
        std::mem::swap(&mut taken, &mut self.pending_ops);
        taken
    }

    /// Record the outcome of running an operation.
    pub fn record(&mut self, op: &PendingOp, outcome: IoOutcome)
        ensures
            completes(op.op, outcome) ==> final(self).completed() == old(self).completed().push(
                CompletedOp { user_data: op.user_data, result: result_of(op.op, outcome) },
            ),
            !completes(op.op, outcome) ==> final(self).completed() == old(self).completed(),
            final(self).pending() == old(self).pending(),
            final(self).fds() == old(self).fds(),
            final(self).epoll_spec() == old(self).epoll_spec(),
            final(self).entries_spec() == old(self).entries_spec(),
    {
        let result: Result<usize, std::io::Error> = match op.op {
            OpType::Nop | OpType::PollAdd(_) => Ok(0),
            OpType::Read { .. } | OpType::Write { .. } => match outcome {
                IoOutcome::Done(n) => Ok(n),
                IoOutcome::WouldBlock(_) => {
                    return ;
                },
                IoOutcome::Failed(e) => Err(e),
            },
            _ => match outcome {
                IoOutcome::Done(n) => Ok(n),
                IoOutcome::WouldBlock(e) => Err(e),
                IoOutcome::Failed(e) => Err(e),
            },
        };
        self.completed_ops.push(CompletedOp { user_data: op.user_data, result });
    }

    /// Note readiness reported by `epoll_wait` for a registered descriptor;
    /// reports for other descriptors are ignored.
    pub fn apply_event(&mut self, fd: i32, events: u32)
        requires
            old(self).wf(),
        ensures
            final(self).wf(),
            final(self).fds().len() == old(self).fds().len(),
            forall|i: int|
                0 <= i < old(self).fds().len() ==> (#[trigger] final(self).fds()[i]) == if old(
                    self,
                ).fds()[i].0 == fd {
                    (
                        fd,
                        FdOpState {
                            readable: old(self).fds()[i].1.readable || events & EPOLLIN != 0,
                            writable: old(self).fds()[i].1.writable || events & EPOLLOUT != 0,
                            registered: old(self).fds()[i].1.registered,
                        },
                    )
                } else {
                    old(self).fds()[i]
                },
            final(self).pending() == old(self).pending(),
            final(self).completed() == old(self).completed(),
            final(self).epoll_spec() == old(self).epoll_spec(),
            final(self).entries_spec() == old(self).entries_spec(),
    {
        match self.find_fd(fd) {
            Some(i) => {
                let s = self.fd_ops[i].1;
                let ns = FdOpState {
                    readable: s.readable || events & EPOLLIN != 0,
                    writable: s.writable || events & EPOLLOUT != 0,
                    registered: s.registered,
                };
                let ghost old_fds = self.fd_ops@;
                self.fd_ops.set(i, (fd, ns));
                proof {
                    assert forall|k: int| 0 <= k < old_fds.len() && k != i implies old_fds[k].0
                        != fd by {
                        assert(old_fds[k].0 != old_fds[i as int].0);
                    }
                    assert forall|a: int, b: int|
                        0 <= a < self.fd_ops@.len() && 0 <= b < self.fd_ops@.len() && a != b
                            implies (#[trigger] self.fd_ops@[a]).0 != (
                    #[trigger] self.fd_ops@[b]).0 by {
                        assert(old_fds[a].0 == self.fd_ops@[a].0);
                        assert(old_fds[b].0 == self.fd_ops@[b].0);
                    }
                }
            },
            None => {},
        }
    }

    fn is_ready(&self, op: &PendingOp) -> (r: bool)
        requires
            self.wf(),
        ensures
            r == op_ready(self.fds(), *op),
    {
        match op.op {
            OpType::Read { .. } | OpType::ReadAt { .. } => match self.state_of(op.fd) {
                Some(s) => s.readable,
                None => true,
            },
            OpType::Write { .. } | OpType::WriteAt { .. } => match self.state_of(op.fd) {
                Some(s) => s.writable,
                None => true,
            },
            OpType::Nop | OpType::PollAdd(_) => true,
        }
    }

    /// Remove the operations that are ready to run and hand them out from
    /// the back of the queue to the front, the order in which they run; the
    /// others stay queued in order.
    pub fn take_ready(&mut self) -> (r: Vec<PendingOp>)
        requires
            old(self).wf(),
        ensures
            final(self).wf(),
            r@ == ready_reversed(old(self).fds(), old(self).pending()),
            final(self).pending() == not_ready(old(self).fds(), old(self).pending()),
            final(self).completed() == old(self).completed(),
            final(self).fds() == old(self).fds(),
            final(self).epoll_spec() == old(self).epoll_spec(),
            final(self).entries_spec() == old(self).entries_spec(),
    {
        let mut all = self.take_pending();
        let ghost ops = all@;
        let mut kept_rev: Vec<PendingOp> = Vec::new();
        let mut ready: Vec<PendingOp> = Vec::new();
        while all.len() > 0
            invariant
                self.wf(),
                self.fds() == old(self).fds(),
                ops == old(self).pending(),
                all@.len() <= ops.len(),
                all@ == ops.subrange(0, all@.len() as int),
                ready@ + ready_reversed(self.fds(), all@) == ready_reversed(self.fds(), ops),
                not_ready(self.fds(), ops) == not_ready(self.fds(), all@) + kept_rev@.reverse(),
                self.pending().len() == 0,
                self.completed() == old(self).completed(),
                self.epoll_spec() == old(self).epoll_spec(),
                self.entries_spec() == old(self).entries_spec(),
            decreases all@.len(),
        {
            let ghost before = all@;
            let op = all.pop().unwrap();
            proof {
                assert(before.drop_last() =~= all@);
                assert(before.last() == op);
            }
            if self.is_ready(&op) {
                let ghost rb = ready@;
                ready.push(op);
                proof {
                    assert(ready@ + ready_reversed(self.fds(), all@) =~= rb + (seq![op]
                        + ready_reversed(self.fds(), all@)));
                }
            } else {
                let ghost kb = kept_rev@;
                kept_rev.push(op);
                proof {
                    assert(kept_rev@.reverse() =~= seq![op] + kb.reverse());
                    assert(not_ready(self.fds(), before) =~= not_ready(self.fds(), all@).push(op));
                    assert(not_ready(self.fds(), all@).push(op) + kb.reverse() =~= not_ready(
                        self.fds(),
                        all@,
                    ) + (seq![op] + kb.reverse()));
                }
            }
            proof {
                assert(all@ =~= before.subrange(0, all@.len() as int));
                assert(all@ =~= ops.subrange(0, all@.len() as int));
            }
        }
        let mut kept: Vec<PendingOp> = Vec::new();
        while kept_rev.len() > 0
            invariant
                kept@ + kept_rev@.reverse() == not_ready(self.fds(), ops),
                self.wf(),
                self.fds() == old(self).fds(),
                ops == old(self).pending(),
                self.pending().len() == 0,
                self.completed() == old(self).completed(),
                self.epoll_spec() == old(self).epoll_spec(),
                self.entries_spec() == old(self).entries_spec(),
            decreases kept_rev@.len(),
        {
            let ghost kb = kept_rev@;
            let op = kept_rev.pop().unwrap();
            proof {
                assert(kb.drop_last() =~= kept_rev@);
                assert(kb.reverse() =~= seq![op] + kept_rev@.reverse());
            }
            kept.push(op);
            proof {
                assert(kept@ + kept_rev@.reverse() =~= kept@.drop_last() + (seq![op]
                    + kept_rev@.reverse()));
            }
        }
        proof {
            assert(kept_rev@.reverse() =~= Seq::<PendingOp>::empty());
            assert(kept@ =~= not_ready(self.fds(), ops));
        }
        self.pending_ops = kept;
        ready
    }

    /// Remove and return the most recent completion.
    pub fn pop_completed(&mut self) -> (r: Option<CompletedOp>)
        ensures
            old(self).completed().len() == 0 ==> r is None && final(self).completed() == old(
                self,
            ).completed(),
            old(self).completed().len() > 0 ==> r == Some(old(self).completed().last())
                && final(self).completed() == old(self).completed().drop_last(),
            final(self).pending() == old(self).pending(),
            final(self).fds() == old(self).fds(),
            final(self).epoll_spec() == old(self).epoll_spec(),
            final(self).entries_spec() == old(self).entries_spec(),
    {
        self.completed_ops.pop()
    }

    /// Take every completion, oldest first.
    pub fn take_completions(&mut self) -> (r: Vec<CompletedOp>)
        ensures
            r@ == old(self).completed(),
            final(self).completed().len() == 0,
            final(self).pending() == old(self).pending(),
            final(self).fds() == old(self).fds(),
            final(self).epoll_spec() == old(self).epoll_spec(),
            final(self).entries_spec() == old(self).entries_spec(),
    {
        let mut taken: Vec<CompletedOp> = Vec::new();
        std::mem::swap(&mut taken, &mut self.completed_ops);
        taken
    }

    /// Number of completions waiting.
    pub fn completed_len(&self) -> (r: usize)
        ensures
            r == self.completed().len(),
    {
        self.completed_ops.len()
    }

    /// Number of operations waiting.
    pub fn pending_len(&self) -> (r: usize)
        ensures
            r == self.pending().len(),
    {
        self.pending_ops.len()
    }
}

/// The bytes a write of `len` bytes from `buf` sends.
fn outgoing(buf: &Option<Vec<u8>>, len: usize) -> (r: Vec<u8>)
    ensures
        r@ == outgoing_bytes(*buf, len),
{
    let mut out: Vec<u8> = Vec::new();
    let mut i: usize = 0;
    while i < len
        invariant
            i <= len,
            out@ == outgoing_bytes(*buf, len).take(i as int),
        decreases len - i,
    {
        let byte = match buf {
            Some(b) => if i < b.len() {
                b[i]
            } else {
                0u8
            },
            None => 0u8,
        };
        out.push(byte);
        i = i + 1;
        proof {
            assert(out@ =~= outgoing_bytes(*buf, len).take(i as int));
        }
    }
    assert(out@ =~= outgoing_bytes(*buf, len));
    out
}

/// The system call that runs an operation.
pub fn syscall_request(op: &PendingOp) -> (r: SyscallRequest)
    ensures
        is_syscall_for(r, *op),
{
    match op.op {
        OpType::Read { len } => SyscallRequest::Read { fd: op.fd, len },
        OpType::Write { len } => SyscallRequest::Write { fd: op.fd, data: outgoing(&op.buf, len) },
        OpType::ReadAt { offset, len } => SyscallRequest::ReadAt { fd: op.fd, len, offset },
        OpType::WriteAt { offset, len } => SyscallRequest::WriteAt {
            fd: op.fd,
            data: outgoing(&op.buf, len),
            offset,
        },
        OpType::Nop | OpType::PollAdd(_) => SyscallRequest::Nothing,
    }
}

/// Interests of a poll request: input when `EPOLLIN` is in the mask, output
/// when `EPOLLOUT` is.
pub fn poll_interest(mask: u32) -> (r: (bool, bool))
    ensures
        r == (mask & EPOLLIN != 0, mask & EPOLLOUT != 0),
{
    (mask & EPOLLIN != 0, mask & EPOLLOUT != 0)
}

/// Readiness follows the direction of an operation: on a registered
/// descriptor (entry `i` of the table) a read or positioned read is ready
/// exactly when the descriptor is readable, a write or positioned write
/// exactly when it is writable, whatever the other flag says.
pub proof fn law_ready_by_direction(fds: Seq<(i32, FdOpState)>, op: PendingOp, i: int)
    requires
        fds_distinct(fds),
        0 <= i < fds.len(),
        fds[i].0 == op.fd,
    ensures
        (op.op is Write || op.op is WriteAt) ==> op_ready(fds, op) == fds[i].1.writable,
        (op.op is Read || op.op is ReadAt) ==> op_ready(fds, op) == fds[i].1.readable,
{
    let c = choose|k: int| 0 <= k < fds.len() && (#[trigger] fds[k]).0 == op.fd;
    if c != i {
        assert(fds[c].0 != fds[i].0);
    }
}

/// No-ops and polls are always ready, and so is every operation on a
/// descriptor that is not in the table.
pub proof fn law_ready_without_state(fds: Seq<(i32, FdOpState)>, op: PendingOp)
    ensures
        (op.op is Nop || op.op is PollAdd) ==> op_ready(fds, op),
        (forall|k: int| 0 <= k < fds.len() ==> (#[trigger] fds[k]).0 != op.fd) ==> op_ready(fds, op),
{
}

/// Taking the ready operations from a queue of one write on a registered
/// writable descriptor hands that write out and leaves the queue empty; on
/// a registered descriptor that is not writable the write stays queued.
pub proof fn law_write_taken_when_writable(fds: Seq<(i32, FdOpState)>, op: PendingOp, i: int)
    requires
        fds_distinct(fds),
        0 <= i < fds.len(),
        fds[i].0 == op.fd,
        op.op is Write || op.op is WriteAt,
    ensures
        fds[i].1.writable ==> ready_reversed(fds, seq![op]) == seq![op] && not_ready(fds, seq![op])
            == Seq::<PendingOp>::empty(),
        !fds[i].1.writable ==> ready_reversed(fds, seq![op]) == Seq::<PendingOp>::empty()
            && not_ready(fds, seq![op]) == seq![op],
{
    law_ready_by_direction(fds, op, i);
    let q = seq![op];
    assert(q.last() == op);
    assert(q.drop_last() =~= Seq::<PendingOp>::empty());
    assert(ready_reversed(fds, q.drop_last()) == Seq::<PendingOp>::empty());
    assert(not_ready(fds, q.drop_last()) == Seq::<PendingOp>::empty());
    assert(seq![op] + Seq::<PendingOp>::empty() =~= seq![op]);
    assert(Seq::<PendingOp>::empty().push(op) =~= seq![op]);
}

/// Every queued operation is either run (once) or kept: a ready selection
/// splits the queue without losing or adding operations.
pub proof fn law_ready_split(fds: Seq<(i32, FdOpState)>, ops: Seq<PendingOp>)
    ensures
        ready_reversed(fds, ops).len() + not_ready(fds, ops).len() == ops.len(),
        forall|i: int| 0 <= i < not_ready(fds, ops).len() ==> !op_ready(fds, #[trigger] not_ready(fds, ops)[i]),
        forall|i: int| 0 <= i < ready_reversed(fds, ops).len() ==> op_ready(fds, #[trigger] ready_reversed(fds, ops)[i]),
    decreases ops.len(),
{
    if ops.len() > 0 {
        law_ready_split(fds, ops.drop_last());
        let nr = not_ready(fds, ops.drop_last());
        let rr = ready_reversed(fds, ops.drop_last());
        if op_ready(fds, ops.last()) {
            assert forall|i: int| 0 <= i < ready_reversed(fds, ops).len() implies op_ready(fds, #[trigger] ready_reversed(fds, ops)[i]) by {
                if i > 0 {
                    assert(ready_reversed(fds, ops)[i] == rr[i - 1]);
                }
            }
        } else {
            assert forall|i: int| 0 <= i < not_ready(fds, ops).len() implies !op_ready(fds, #[trigger] not_ready(fds, ops)[i]) by {
                if i < nr.len() {
                    assert(not_ready(fds, ops)[i] == nr[i]);
                }
            }
        }
    }
}

} // verus!
