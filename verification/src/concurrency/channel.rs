//! Channel primitives for communicating between coroutines: a rendezvous
//! channel, a bounded buffered channel and an unbounded channel, all with
//! first-in first-out delivery and close semantics.
use vstd::prelude::*;
use std::collections::VecDeque;

verus! {

#[derive(Debug, Clone, Copy, PartialEq, Eq, Structural)]
pub enum ChannelCapacity {
    Unbounded,
    Buffered(usize),
    Rendezvous,
}

impl ChannelCapacity {
    /// Zero gives a rendezvous channel, a positive number a buffer of that
    /// size, a negative number an unbounded channel.
    pub fn new(capacity: isize) -> (r: Self)
        ensures
            capacity == 0 ==> r == ChannelCapacity::Rendezvous,
            capacity > 0 ==> r == ChannelCapacity::Buffered(capacity as usize),
            capacity < 0 ==> r == ChannelCapacity::Unbounded,
    {
        if capacity == 0 {
            ChannelCapacity::Rendezvous
        } else if capacity > 0 {
            ChannelCapacity::Buffered(capacity as usize)
        } else {
            ChannelCapacity::Unbounded
        }
    }
}

/// A refused send hands the value back.
#[derive(Debug, Clone, PartialEq)]
pub enum SendError<T> {
    Closed(T),
    Full(T),
}

impl<T> SendError<T> {
    pub open spec fn inner(self) -> T {
        match self {
            SendError::Closed(v) => v,
            SendError::Full(v) => v,
        }
    }

    pub fn into_inner(self) -> (r: T)
        ensures
            r == self.inner(),
    {
        match self {
            SendError::Closed(v) => v,
            SendError::Full(v) => v,
        }
    }
}

#[derive(Debug, Clone, Copy, PartialEq, Eq, Structural)]
pub enum RecvError {
    Empty,
    Closed,
}

/// Outcome of a receive on a queue `q` that is `closed` or not: the oldest
/// value when there is one, `Closed` on a drained closed channel, `Empty`
/// otherwise.
pub open spec fn recv_result<T>(q: Seq<T>, closed: bool) -> Result<T, RecvError> {
    if q.len() > 0 {
        Ok(q[0])
    } else if closed {
        Err(RecvError::Closed)
    } else {
        Err(RecvError::Empty)
    }
}

/// Queue left by a receive.
pub open spec fn recv_queue<T>(q: Seq<T>) -> Seq<T> {
    if q.len() > 0 {
        q.drop_first()
    } else {
        q
    }
}

/// Whether a send of a value is accepted, given the queue, whether the
/// channel is closed, and the bound on the queue length (`None`: unbounded).
/// A rendezvous channel hands one value over at a time: it accepts a value
/// while none waits for its receiver.
pub open spec fn send_accepts<T>(q: Seq<T>, closed: bool, kind: ChannelCapacity) -> bool {
    !closed && match kind {
        ChannelCapacity::Unbounded => true,
        ChannelCapacity::Buffered(cap) => q.len() < cap,
        ChannelCapacity::Rendezvous => q.len() == 0,
    }
}

/// Outcome of a send.
pub open spec fn send_result<T>(q: Seq<T>, closed: bool, kind: ChannelCapacity, v: T) -> Result<
    (),
    SendError<T>,
> {
    if closed {
        Err(SendError::Closed(v))
    } else if send_accepts(q, closed, kind) {
        Ok(())
    } else {
        Err(SendError::Full(v))
    }
}

/// Queue left by a send.
pub open spec fn send_queue<T>(q: Seq<T>, closed: bool, kind: ChannelCapacity, v: T) -> Seq<T> {
    if send_accepts(q, closed, kind) {
        q.push(v)
    } else {
        q
    }
}

/// A closed channel refuses every send and hands the value back, whatever
/// its kind, and keeps its queue.
pub proof fn law_closed_refuses_send<T>(q: Seq<T>, kind: ChannelCapacity, v: T)
    ensures
        send_result(q, true, kind, v) == Err::<(), SendError<T>>(SendError::Closed(v)),
        send_queue(q, true, kind, v) == q,
{
}

/// A receive gives back the oldest value still queued, and sending more
/// values does not change which value that is (first in, first out).
pub proof fn law_fifo<T>(q: Seq<T>, closed: bool, kind: ChannelCapacity, v: T)
    requires
        q.len() > 0,
    ensures
        recv_result(send_queue(q, closed, kind, v), closed) == recv_result(q, closed),
        recv_result(q, closed) == Ok::<T, RecvError>(q[0]),
        recv_queue(send_queue(q, closed, kind, v)) == send_queue(recv_queue(q), closed, ChannelCapacity::Unbounded, v)
            || !send_accepts(q, closed, kind),
{
    if send_accepts(q, closed, kind) {
        assert(q.push(v).drop_first() =~= q.drop_first().push(v));
    }
}

/// A value sent into an open, empty rendezvous, unbounded or non-zero
/// buffered channel is the next value received, and the channel is empty
/// again afterwards.
pub proof fn law_send_then_recv<T>(kind: ChannelCapacity, v: T)
    requires
        kind != ChannelCapacity::Buffered(0),
    ensures
        send_result(Seq::<T>::empty(), false, kind, v) == Ok::<(), SendError<T>>(()),
        recv_result(send_queue(Seq::<T>::empty(), false, kind, v), false) == Ok::<T, RecvError>(v),
        recv_queue(send_queue(Seq::<T>::empty(), false, kind, v)) == Seq::<T>::empty(),
{
    assert(Seq::<T>::empty().push(v).drop_first() =~= Seq::<T>::empty());
}

/// A buffered channel never holds more values than its capacity.
pub proof fn law_buffered_bound<T>(q: Seq<T>, closed: bool, cap: usize, v: T)
    requires
        q.len() <= cap,
    ensures
        send_queue(q, closed, ChannelCapacity::Buffered(cap), v).len() <= cap,
        recv_queue(q).len() <= cap,
{
}

/// A rendezvous channel holds at most one value: a second send waits (is
/// refused as full) until the receiver has taken the first.
pub proof fn law_rendezvous_holds_one<T>(q: Seq<T>, closed: bool, v: T)
    requires
        q.len() <= 1,
    ensures
        send_queue(q, closed, ChannelCapacity::Rendezvous, v).len() <= 1,
        q.len() == 1 ==> send_result(q, closed, ChannelCapacity::Rendezvous, v) is Err,
        recv_queue(q).len() <= 1,
{
}

/// One call on a channel, for reasoning about sequences of calls.
pub enum ChannelOp<T> {
    Send(T),
    Recv,
    Close,
}

/// A sequence of calls replayed on a channel of `kind` that holds `q` and is
/// `closed` or not: the queue and closed flag it leaves, the number of
/// sends it accepted and the number of receives that gave a value.
pub open spec fn replay<T>(q: Seq<T>, closed: bool, kind: ChannelCapacity, ops: Seq<ChannelOp<T>>) -> (
    Seq<T>,
    bool,
    nat,
    nat,
)
    decreases ops.len(),
{
    if ops.len() == 0 {
        (q, closed, 0, 0)
    } else {
        let (q1, c1, s1, r1) = match ops[0] {
            ChannelOp::Send(v) => (
                send_queue(q, closed, kind, v),
                closed,
                if send_accepts(q, closed, kind) { 1nat } else { 0nat },
                0nat,
            ),
            ChannelOp::Recv => (recv_queue(q), closed, 0nat, if q.len() > 0 { 1nat } else { 0nat }),
            ChannelOp::Close => (q, true, 0nat, 0nat),
        };
        let (q2, c2, s2, r2) = replay(q1, c1, kind, ops.drop_first());
        (q2, c2, s1 + s2, r1 + r2)
    }
}

/// Over any sequence of sends, receives and closes, the number of values
/// a channel holds is what it held, plus the sends it accepted, minus the
/// receives that gave a value; a buffered channel stays within its
/// capacity throughout.
pub proof fn law_len_counts_calls<T>(q: Seq<T>, closed: bool, kind: ChannelCapacity, ops: Seq<ChannelOp<T>>)
    requires
        kind matches ChannelCapacity::Buffered(cap) ==> q.len() <= cap,
    ensures
        ({
            let (q2, c2, sends, recvs) = replay(q, closed, kind, ops);
            &&& q2.len() == q.len() + sends - recvs
            &&& kind matches ChannelCapacity::Buffered(cap) ==> q2.len() <= cap
        }),
    decreases ops.len(),
{
    if ops.len() > 0 {
        let (q1, c1) = match ops[0] {
            ChannelOp::Send(v) => (send_queue(q, closed, kind, v), closed),
            ChannelOp::Recv => (recv_queue(q), closed),
            ChannelOp::Close => (q, true),
        };
        law_len_counts_calls(q1, c1, kind, ops.drop_first());
    }
}

/// After a close, receives drain the queued values in order and then report
/// `Closed`.
pub proof fn law_close_then_drain<T>(q: Seq<T>)
    ensures
        q.len() > 0 ==> recv_result(q, true) == Ok::<T, RecvError>(q[0]),
        q.len() == 0 ==> recv_result(q, true) == Err::<T, RecvError>(RecvError::Closed),
{
}

fn pop_front_of<T>(buffer: &mut VecDeque<T>, closed: bool) -> (r: Result<T, RecvError>)
    ensures
        r == recv_result(old(buffer)@, closed),
        final(buffer)@ == recv_queue(old(buffer)@),
{
    match buffer.pop_front() {
        Some(v) => Ok(v),
        None => {
            if closed {
                Err(RecvError::Closed)
            } else {
                Err(RecvError::Empty)
            }
        },
    }
}

/// Unbuffered channel: a sent value waits for its receiver, and a further
/// send is refused until it has been taken.
pub struct RendezvousChannel<T> {
    buffer: VecDeque<T>,
    closed: bool,
}

impl<T> RendezvousChannel<T> {
    pub closed spec fn queue(&self) -> Seq<T> {
        self.buffer@
    }

    pub closed spec fn is_closed_spec(&self) -> bool {
        self.closed
    }

    pub fn new() -> (r: Self)
        ensures
            r.queue() == Seq::<T>::empty(),
            !r.is_closed_spec(),
    {
        Self { buffer: VecDeque::new(), closed: false }
    }

    pub fn try_send(&mut self, value: T) -> (r: Result<(), SendError<T>>)
        ensures
            r == send_result(old(self).queue(), old(self).is_closed_spec(), ChannelCapacity::Rendezvous, value),
            final(self).queue() == send_queue(
                old(self).queue(),
                old(self).is_closed_spec(),
                ChannelCapacity::Rendezvous,
                value,
            ),
            final(self).is_closed_spec() == old(self).is_closed_spec(),
    {
        if self.closed {
            return Err(SendError::Closed(value));
        }
        if self.buffer.len() == 0 {
            self.buffer.push_back(value);
            Ok(())
        } else {
            Err(SendError::Full(value))
        }
    }

    pub fn try_recv(&mut self) -> (r: Result<T, RecvError>)
        ensures
            r == recv_result(old(self).queue(), old(self).is_closed_spec()),
            final(self).queue() == recv_queue(old(self).queue()),
            final(self).is_closed_spec() == old(self).is_closed_spec(),
    {
        pop_front_of(&mut self.buffer, self.closed)
    }

    pub fn close(&mut self)
        ensures
            final(self).is_closed_spec(),
            final(self).queue() == old(self).queue(),
    {
        self.closed = true;
    }

    pub fn is_closed(&self) -> (r: bool)
        ensures
            r == self.is_closed_spec(),
    {
        self.closed
    }

    pub fn capacity(&self) -> (r: ChannelCapacity)
        ensures
            r == ChannelCapacity::Rendezvous,
    {
        ChannelCapacity::Rendezvous
    }
}

/// Channel with a bounded buffer.
pub struct BufferedChannel<T> {
    buffer: VecDeque<T>,
    capacity: usize,
    closed: bool,
}

impl<T> BufferedChannel<T> {
    pub closed spec fn queue(&self) -> Seq<T> {
        self.buffer@
    }

    pub closed spec fn is_closed_spec(&self) -> bool {
        self.closed
    }

    pub closed spec fn bound(&self) -> usize {
        self.capacity
    }

    /// The queue never holds more values than the capacity.
    pub open spec fn wf(&self) -> bool {
        self.queue().len() <= self.bound()
    }

    pub fn new(capacity: usize) -> (r: Self)
        ensures
            r.wf(),
            r.queue() == Seq::<T>::empty(),
            !r.is_closed_spec(),
            r.bound() == capacity,
    {
        Self { buffer: VecDeque::with_capacity(capacity), capacity, closed: false }
    }

    pub fn try_send(&mut self, value: T) -> (r: Result<(), SendError<T>>)
        requires
            old(self).wf(),
        ensures
            final(self).wf(),
            r == send_result(
                old(self).queue(),
                old(self).is_closed_spec(),
                ChannelCapacity::Buffered(old(self).bound()),
                value,
            ),
            final(self).queue() == send_queue(
                old(self).queue(),
                old(self).is_closed_spec(),
                ChannelCapacity::Buffered(old(self).bound()),
                value,
            ),
            final(self).is_closed_spec() == old(self).is_closed_spec(),
            final(self).bound() == old(self).bound(),
    {
        if self.closed {
            return Err(SendError::Closed(value));
        }
        if self.buffer.len() < self.capacity {
            self.buffer.push_back(value);
            Ok(())
        } else {
            Err(SendError::Full(value))
        }
    }

    pub fn try_recv(&mut self) -> (r: Result<T, RecvError>)
        requires
            old(self).wf(),
        ensures
            final(self).wf(),
            r == recv_result(old(self).queue(), old(self).is_closed_spec()),
            final(self).queue() == recv_queue(old(self).queue()),
            final(self).is_closed_spec() == old(self).is_closed_spec(),
            final(self).bound() == old(self).bound(),
    {
        pop_front_of(&mut self.buffer, self.closed)
    }

    pub fn len(&self) -> (r: usize)
        ensures
            r == self.queue().len(),
    {
        self.buffer.len()
    }

    pub fn close(&mut self)
        requires
            old(self).wf(),
        ensures
            final(self).wf(),
            final(self).is_closed_spec(),
            final(self).queue() == old(self).queue(),
            final(self).bound() == old(self).bound(),
    {
        self.closed = true;
    }

    pub fn is_closed(&self) -> (r: bool)
        ensures
            r == self.is_closed_spec(),
    {
        self.closed
    }

    pub fn capacity(&self) -> (r: ChannelCapacity)
        ensures
            r == ChannelCapacity::Buffered(self.bound()),
    {
        ChannelCapacity::Buffered(self.capacity)
    }
}

/// Channel with an unbounded buffer.
pub struct UnboundedChannel<T> {
    buffer: VecDeque<T>,
    closed: bool,
}

impl<T> UnboundedChannel<T> {
    pub closed spec fn queue(&self) -> Seq<T> {
        self.buffer@
    }

    pub closed spec fn is_closed_spec(&self) -> bool {
        self.closed
    }

    pub fn new() -> (r: Self)
        ensures
            r.queue() == Seq::<T>::empty(),
            !r.is_closed_spec(),
    {
        Self { buffer: VecDeque::new(), closed: false }
    }

    pub fn try_send(&mut self, value: T) -> (r: Result<(), SendError<T>>)
        ensures
            r == send_result(old(self).queue(), old(self).is_closed_spec(), ChannelCapacity::Unbounded, value),
            final(self).queue() == send_queue(
                old(self).queue(),
                old(self).is_closed_spec(),
                ChannelCapacity::Unbounded,
                value,
            ),
            final(self).is_closed_spec() == old(self).is_closed_spec(),
    {
        if self.closed {
            return Err(SendError::Closed(value));
        }
        self.buffer.push_back(value);
        Ok(())
    }

    pub fn try_recv(&mut self) -> (r: Result<T, RecvError>)
        ensures
            r == recv_result(old(self).queue(), old(self).is_closed_spec()),
            final(self).queue() == recv_queue(old(self).queue()),
            final(self).is_closed_spec() == old(self).is_closed_spec(),
    {
        pop_front_of(&mut self.buffer, self.closed)
    }

    pub fn len(&self) -> (r: usize)
        ensures
            r == self.queue().len(),
    {
        self.buffer.len()
    }

    pub fn close(&mut self)
        ensures
            final(self).is_closed_spec(),
            final(self).queue() == old(self).queue(),
    {
        self.closed = true;
    }

    pub fn is_closed(&self) -> (r: bool)
        ensures
            r == self.is_closed_spec(),
    {
        self.closed
    }

    pub fn capacity(&self) -> (r: ChannelCapacity)
        ensures
            r == ChannelCapacity::Unbounded,
    {
        ChannelCapacity::Unbounded
    }
}

} // verus!
