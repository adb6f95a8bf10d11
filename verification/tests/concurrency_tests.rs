use userspace::concurrency::channel::{
    BufferedChannel, ChannelCapacity, RecvError, RendezvousChannel, SendError, UnboundedChannel,
};
use userspace::concurrency::dispatcher::{DispatcherEnum, Dispatchers};
use userspace::concurrency::lifecycle::{
    CancellationException, DeferredCore, DeferredState, JobCore, JobSignals, JobState,
};

#[test]
fn test_channel_capacity() {
    let tx1 = RendezvousChannel::<i32>::new();
    let tx2 = BufferedChannel::<i32>::new(5);
    let tx3 = UnboundedChannel::<i32>::new();

    assert_eq!(tx1.capacity(), ChannelCapacity::Rendezvous);
    assert_eq!(tx2.capacity(), ChannelCapacity::Buffered(5));
    assert_eq!(tx3.capacity(), ChannelCapacity::Unbounded);
}

#[test]
fn capacity_from_a_number() {
    assert_eq!(ChannelCapacity::new(0), ChannelCapacity::Rendezvous);
    assert_eq!(ChannelCapacity::new(3), ChannelCapacity::Buffered(3));
    assert_eq!(ChannelCapacity::new(-1), ChannelCapacity::Unbounded);
}

#[test]
fn buffered_channel_is_fifo_and_bounded() {
    let mut ch = BufferedChannel::new(2);
    assert!(ch.try_send(1).is_ok());
    assert!(ch.try_send(2).is_ok());
    match ch.try_send(3) {
        Err(SendError::Full(v)) => assert_eq!(v, 3),
        _ => panic!("a full buffer refuses"),
    }
    assert_eq!(ch.len(), 2);
    assert_eq!(ch.try_recv(), Ok(1));
    assert_eq!(ch.try_recv(), Ok(2));
    assert_eq!(ch.try_recv(), Err(RecvError::Empty));
}

#[test]
fn closed_channel_drains_then_reports_closed() {
    let mut ch = UnboundedChannel::new();
    for i in 0..100 {
        assert!(ch.try_send(i).is_ok());
    }
    ch.close();
    assert!(ch.is_closed());
    match ch.try_send(100) {
        Err(e) => assert_eq!(e.into_inner(), 100),
        Ok(()) => panic!("a closed channel refuses"),
    }
    for i in 0..100 {
        assert_eq!(ch.try_recv(), Ok(i));
    }
    assert_eq!(ch.try_recv(), Err(RecvError::Closed));
}

#[test]
fn test_channel_creation() {
    let mut ch = RendezvousChannel::<i32>::new();
    assert!(ch.try_send(1).is_ok());
    assert_eq!(ch.try_recv(), Ok(1));
}

#[test]
fn test_rendezvous_channel() {
    let mut ch = RendezvousChannel::<i32>::new();
    assert!(ch.try_send(42).is_ok());
    assert_eq!(ch.try_recv(), Ok(42));
}

#[test]
fn rendezvous_channel_holds_one_value() {
    let mut ch = RendezvousChannel::new();
    assert!(ch.try_send(1).is_ok());
    match ch.try_send(2) {
        Err(SendError::Full(v)) => assert_eq!(v, 2),
        _ => panic!("the first value still waits for its receiver"),
    }
    assert_eq!(ch.try_recv(), Ok(1));
    assert_eq!(ch.try_recv(), Err(RecvError::Empty));
    assert!(ch.try_send(3).is_ok());
    ch.close();
    assert_eq!(ch.try_recv(), Ok(3));
    assert_eq!(ch.try_recv(), Err(RecvError::Closed));
}

#[test]
fn buffered_len_counts_sends_and_receives() {
    let mut ch = BufferedChannel::new(3);
    let mut sent = 0usize;
    let mut got = 0usize;
    for i in 0..5 {
        if ch.try_send(i).is_ok() {
            sent += 1;
        }
    }
    for _ in 0..2 {
        if ch.try_recv().is_ok() {
            got += 1;
        }
    }
    assert_eq!(sent, 3);
    assert_eq!(got, 2);
    assert_eq!(ch.len(), sent - got);
    ch.close();
    assert!(ch.try_send(9).is_err());
    assert_eq!(ch.len(), 1);
}

#[test]
fn dispatchers_and_parallelism() {
    assert!(Dispatchers::default().is_dispatch_needed());
    assert!(!Dispatchers::main().is_dispatch_needed());
    match Dispatchers::default().limit_parallelism(3) {
        DispatcherEnum::Limited(l) => assert_eq!(l.parallelism(), 3),
        _ => panic!("limiting gives a limited dispatcher"),
    }
}

#[test]
fn job_cancellation_reaches_cancelled() {
    let mut job = JobCore::new();
    job.start();
    assert!(job.is_active());
    assert!(job.begin_cancel(CancellationException::new("Job was cancelled")));
    assert!(job.is_cancelled());
    assert_eq!(job.state(), JobState::Cancelling);
    let s = job.finish_cancel();
    assert_eq!(s, JobSignals { completed: true, cancelled: true });
    assert!(job.is_completed());
    // a finished job ignores another cancellation
    assert!(!job.begin_cancel(CancellationException::new("again")));
    assert_eq!(job.state(), JobState::Cancelled);
}

#[test]
fn supervisor_cancel_skips_cancelling() {
    let mut job = JobCore::new();
    assert!(job.supervisor_cancel().is_some());
    assert_eq!(job.state(), JobState::Cancelled);
    assert!(job.supervisor_cancel().is_none());
}

#[test]
fn deferred_first_settlement_wins() {
    let mut d: DeferredCore<i32> = DeferredCore::new();
    assert!(d.is_active());
    assert_eq!(d.get_completed().map(|r| r.ok()), None);
    assert!(d.complete(42));
    assert!(!d.cancel());
    assert!(!d.complete(7));
    match d.get_completed() {
        Some(Ok(v)) => assert_eq!(v, 42),
        _ => panic!("completed with 42"),
    }
    assert!(!d.is_cancelled(false));
    assert!(d.is_cancelled(true));
}

#[test]
fn cancelled_deferred_reports_its_exception() {
    let mut d: DeferredCore<String> = DeferredCore::new();
    assert!(d.cancel());
    match d.get_completed() {
        Some(Err(e)) => {
            assert_eq!(e.message, "Deferred was cancelled");
            assert_eq!(e.to_display_string(), "CancellationException: Deferred was cancelled");
        }
        _ => panic!("cancelled"),
    }
    let _ = DeferredState::<u8>::Active;
}
