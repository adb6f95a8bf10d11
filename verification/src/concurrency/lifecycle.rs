//! Lifecycle state machines of jobs and deferred results: cancellation,
//! completion, and what each state reports.
use vstd::prelude::*;

verus! {

/// Exception raised when a coroutine is cancelled
#[derive(Debug, Clone)]
pub struct CancellationException {
    pub message: String,
}

impl CancellationException {
    pub fn new(message: &str) -> (r: Self)
        ensures
            r.message@ == message@,
    {
        Self { message: String::from_str(message) }
    }

    /// The text `CancellationException: <message>`.
    pub fn to_display_string(&self) -> (r: String)
        ensures
            r@ == "CancellationException: "@ + self.message@,
    {
        let mut s = String::from_str("CancellationException: ");
        s.append(self.message.as_str());
        s
    }
}

/// Context that ignores cancellation.
pub struct NonCancellable;

/// States of a job's lifecycle.
#[derive(Debug, Clone, Copy, PartialEq, Eq, Structural)]
pub enum JobState {
    New,
    Active,
    Completing,
    Completed,
    Cancelling,
    Cancelled,
}

/// A job stops changing once it is completed or cancelled.
pub open spec fn is_terminal(s: JobState) -> bool {
    s == JobState::Completed || s == JobState::Cancelled
}

/// Notifications a state change wakes.
#[derive(Debug, Clone, Copy, PartialEq, Eq, Structural)]
pub struct JobSignals {
    /// Wake those joining the job.
    pub completed: bool,
    /// Wake those waiting for the job's cancellation.
    pub cancelled: bool,
}

/// Signals of entering a state: completion wakes joiners, cancellation
/// wakes both kinds of waiters, `Cancelling` wakes cancellation waiters.
pub open spec fn signals_for(s: JobState) -> JobSignals {
    match s {
        JobState::Completed => JobSignals { completed: true, cancelled: false },
        JobState::Cancelled => JobSignals { completed: true, cancelled: true },
        JobState::Cancelling => JobSignals { completed: false, cancelled: true },
        _ => JobSignals { completed: false, cancelled: false },
    }
}

/// Entering a state wakes the joiners exactly when the job has finished,
/// normally (`Completed`) or by cancellation (`Cancelled`), and signals a
/// cancellation exactly when one has started (`Cancelling`) or ended
/// (`Cancelled`); a job that completes normally wakes its joiners.
pub proof fn law_signals_of_state(s: JobState)
    ensures
        signals_for(s).completed <==> (s == JobState::Completed || s == JobState::Cancelled),
        signals_for(s).cancelled <==> (s == JobState::Cancelling || s == JobState::Cancelled),
        signals_for(s).completed <==> is_terminal(s),
{
}

/// The state a cancellation leaves a job in: a finished job keeps its
/// state, any other ends `Cancelled`.
pub open spec fn after_cancel(s: JobState) -> JobState {
    if is_terminal(s) {
        s
    } else {
        JobState::Cancelled
    }
}

/// Lifecycle of a job; its children are cancelled by the caller between
/// `begin_cancel` and `finish_cancel`.
pub struct JobCore {
    state: JobState,
    cancelled: bool,
    cause: Option<CancellationException>,
}

impl JobCore {
    pub closed spec fn state_spec(&self) -> JobState {
        self.state
    }

    pub closed spec fn cancelled_spec(&self) -> bool {
        self.cancelled
    }

    pub closed spec fn cause_spec(&self) -> Option<CancellationException> {
        self.cause
    }

    pub fn new() -> (r: Self)
        ensures
            r.state_spec() == JobState::New,
            !r.cancelled_spec(),
            r.cause_spec() is None,
    {
        Self { state: JobState::New, cancelled: false, cause: None }
    }

    /// Enter a state; entering `Cancelling` or `Cancelled` marks the job
    /// cancelled for good.
    pub fn set_state(&mut self, s: JobState) -> (r: JobSignals)
        ensures
            final(self).state_spec() == s,
            final(self).cancelled_spec() == (old(self).cancelled_spec() || s == JobState::Cancelling
                || s == JobState::Cancelled),
            final(self).cause_spec() == old(self).cause_spec(),
            r == signals_for(s),
    {
        self.state = s;
        match s {
            JobState::Completed => JobSignals { completed: true, cancelled: false },
            JobState::Cancelled => {
                self.cancelled = true;
                JobSignals { completed: true, cancelled: true }
            },
            JobState::Cancelling => {
                self.cancelled = true;
                JobSignals { completed: false, cancelled: true }
            },
            _ => JobSignals { completed: false, cancelled: false },
        }
    }

    /// A new job becomes active; any other state is kept.
    pub fn start(&mut self)
        ensures
            old(self).state_spec() == JobState::New ==> final(self).state_spec() == JobState::Active,
            old(self).state_spec() != JobState::New ==> final(self).state_spec() == old(
                self,
            ).state_spec(),
            final(self).cancelled_spec() == old(self).cancelled_spec(),
            final(self).cause_spec() == old(self).cause_spec(),
    {
        if self.state == JobState::New {
            self.state = JobState::Active;
        }
    }

    /// First half of a cancellation: a completed or cancelled job ignores it
    /// (`false`); otherwise the cause is recorded and the job is
    /// `Cancelling` (`true`), and its children are to be cancelled next.
    pub fn begin_cancel(&mut self, cause: CancellationException) -> (r: bool)
        ensures
            r == !is_terminal(old(self).state_spec()),
            !r ==> final(self).state_spec() == old(self).state_spec() && final(self).cancelled_spec()
                == old(self).cancelled_spec() && final(self).cause_spec() == old(self).cause_spec(),
            r ==> final(self).state_spec() == JobState::Cancelling && final(self).cancelled_spec()
                && final(self).cause_spec() == Some(cause),
    {
        if self.state == JobState::Completed || self.state == JobState::Cancelled {
            return false;
        }
        self.cause = Some(cause);
        self.set_state(JobState::Cancelling);
        true
    }

    /// Second half of a cancellation, once the children are cancelled.
    pub fn finish_cancel(&mut self) -> (r: JobSignals)
        ensures
            final(self).state_spec() == JobState::Cancelled,
            final(self).cancelled_spec(),
            final(self).cause_spec() == old(self).cause_spec(),
            r == signals_for(JobState::Cancelled),
    {
        self.set_state(JobState::Cancelled)
    }

    /// Cancellation of a supervisor job: it does not touch its children and
    /// goes straight to `Cancelled`, unless already finished.
    pub fn supervisor_cancel(&mut self) -> (r: Option<JobSignals>)
        ensures
            final(self).state_spec() == after_cancel(old(self).state_spec()),
            is_terminal(old(self).state_spec()) ==> r is None && final(self).cancelled_spec() == old(
                self,
            ).cancelled_spec(),
            !is_terminal(old(self).state_spec()) ==> r == Some(signals_for(JobState::Cancelled))
                && final(self).cancelled_spec(),
            final(self).cause_spec() == old(self).cause_spec(),
    {
        if self.state == JobState::Completed || self.state == JobState::Cancelled {
            return None;
        }
        Some(self.set_state(JobState::Cancelled))
    }

    /// A supervisor records the cause of a cancellation even when already
    /// finished.
    pub fn set_cause(&mut self, cause: CancellationException)
        ensures
            final(self).cause_spec() == Some(cause),
            final(self).state_spec() == old(self).state_spec(),
            final(self).cancelled_spec() == old(self).cancelled_spec(),
    {
        self.cause = Some(cause);
    }

    pub fn is_active(&self) -> (r: bool)
        ensures
            r == (self.state_spec() == JobState::Active),
    {
        self.state == JobState::Active
    }

    pub fn is_completed(&self) -> (r: bool)
        ensures
            r == is_terminal(self.state_spec()),
    {
        self.state == JobState::Completed || self.state == JobState::Cancelled
    }

    pub fn is_cancelled(&self) -> (r: bool)
        ensures
            r == self.cancelled_spec(),
    {
        self.cancelled
    }

    pub fn state(&self) -> (r: JobState)
        ensures
            r == self.state_spec(),
    {
        self.state
    }
}

/// State of a deferred result.
pub enum DeferredState<T> {
    Active,
    Completed(T),
    Failed(CancellationException),
    Cancelled,
}

/// Settling a deferred: an active one takes the new state, a settled one
/// keeps its own.
pub open spec fn settle<T>(s: DeferredState<T>, to: DeferredState<T>) -> DeferredState<T> {
    if s is Active {
        to
    } else {
        s
    }
}

/// The message of the exception that a cancelled deferred reports.
pub open spec fn deferred_cancelled_message() -> Seq<char> {
    "Deferred was cancelled"@
}

/// Result state of a deferred, settled by the first completion, failure or
/// cancellation; later ones are ignored.
pub struct DeferredCore<T> {
    state: DeferredState<T>,
}

impl<T> DeferredCore<T> {
    pub closed spec fn state_spec(&self) -> DeferredState<T> {
        self.state
    }
}

impl<T: Clone> DeferredCore<T> {
    pub fn new() -> (r: Self)
        ensures
            r.state_spec() is Active,
    {
        Self { state: DeferredState::Active }
    }

    /// Settle with a value; `true` when this settled the deferred (waiters
    /// are then woken).
    pub fn complete(&mut self, result: T) -> (r: bool)
        ensures
            r == (old(self).state_spec() is Active),
            final(self).state_spec() == settle(old(self).state_spec(), DeferredState::Completed(result)),
    {
        match self.state {
            DeferredState::Active => {
                self.state = DeferredState::Completed(result);
                true
            },
            _ => false,
        }
    }

    /// Settle with an exception.
    pub fn complete_exceptionally(&mut self, exception: CancellationException) -> (r: bool)
        ensures
            r == (old(self).state_spec() is Active),
            final(self).state_spec() == settle(old(self).state_spec(), DeferredState::<T>::Failed(exception)),
    {
        match self.state {
            DeferredState::Active => {
                self.state = DeferredState::Failed(exception);
                true
            },
            _ => false,
        }
    }

    /// Settle as cancelled.
    pub fn cancel(&mut self) -> (r: bool)
        ensures
            r == (old(self).state_spec() is Active),
            final(self).state_spec() == settle(old(self).state_spec(), DeferredState::<T>::Cancelled),
    {
        match self.state {
            DeferredState::Active => {
                self.state = DeferredState::Cancelled;
                true
            },
            _ => false,
        }
    }

    pub fn is_active(&self) -> (r: bool)
        ensures
            r == (self.state_spec() is Active),
    {
        match self.state {
            DeferredState::Active => true,
            _ => false,
        }
    }

    pub fn is_completed(&self) -> (r: bool)
        ensures
            r == !(self.state_spec() is Active),
    {
        match self.state {
            DeferredState::Active => false,
            _ => true,
        }
    }

    /// Cancelled when the deferred was settled by a cancellation, or when its
    /// job is cancelled.
    pub fn is_cancelled(&self, job_cancelled: bool) -> (r: bool)
        ensures
            r == (self.state_spec() is Cancelled || job_cancelled),
    {
        match self.state {
            DeferredState::Cancelled => true,
            _ => job_cancelled,
        }
    }

    /// The settled outcome, `None` while active; a cancelled deferred reports
    /// a `CancellationException` saying `Deferred was cancelled`.
    pub fn get_completed(&self) -> (r: Option<Result<T, CancellationException>>)
        ensures
            match self.state_spec() {
                DeferredState::Active => r is None,
                DeferredState::Completed(v) => r matches Some(Ok(x)) && cloned(v, x),
                DeferredState::Failed(e) => r matches Some(Err(x)) && x.message@ == e.message@,
                DeferredState::Cancelled => r matches Some(Err(x)) && x.message@
                    == deferred_cancelled_message(),
            },
    {
        match &self.state {
            DeferredState::Active => None,
            DeferredState::Completed(v) => Some(Ok(v.clone())),
            DeferredState::Failed(e) => Some(Err(CancellationException { message: e.message.clone() })),
            DeferredState::Cancelled => Some(Err(CancellationException::new("Deferred was cancelled"))),
        }
    }
}

/// The first settlement of a deferred wins: once completed, failed or
/// cancelled, any later settlement leaves it as it was.
pub proof fn law_first_settlement_wins<T>(s: DeferredState<T>, first: DeferredState<T>, later: DeferredState<T>)
    requires
        !(first is Active),
    ensures
        !(settle(s, first) is Active),
        settle(settle(s, first), later) == settle(s, first),
{
}

/// Cancelling a job leaves it finished, a finished job is never revived by
/// a cancellation, and cancelling twice is cancelling once.
pub proof fn law_cancel_settles(s: JobState)
    ensures
        is_terminal(after_cancel(s)),
        is_terminal(s) ==> after_cancel(s) == s,
        after_cancel(after_cancel(s)) == after_cancel(s),
{
}

} // verus!
