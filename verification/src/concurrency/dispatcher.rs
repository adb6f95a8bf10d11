//! Dispatchers: where coroutines run, and how much parallelism they get.
use vstd::prelude::*;

verus! {

/// Default dispatcher (multi-threaded runtime).
#[derive(Debug, Clone, Copy)]
pub struct DefaultDispatcher;

/// Dispatcher that runs in the caller's thread.
#[derive(Debug, Clone, Copy)]
pub struct MainDispatcher;

/// Dispatcher for I/O-bound work.
#[derive(Debug, Clone, Copy)]
pub struct IoDispatcher;

/// Parallelism actually granted for a requested limit: at least one.
pub open spec fn granted(parallelism: usize) -> usize {
    if parallelism == 0 {
        1
    } else {
        parallelism
    }
}

/// Dispatcher for CPU-bound work with a bounded pool.
#[derive(Debug, Clone, Copy)]
pub struct CpuDispatcher {
    pool_size: usize,
}

/// Dispatcher that runs at most a fixed number of coroutines at a time.
#[derive(Debug, Clone, Copy)]
pub struct LimitedDispatcher {
    parallelism: usize,
}

impl CpuDispatcher {
    pub closed spec fn pool_size_spec(&self) -> usize {
        self.pool_size
    }

    pub fn new(pool_size: usize) -> (r: Self)
        ensures
            r.pool_size_spec() == granted(pool_size),
    {
        Self { pool_size: if pool_size == 0 { 1 } else { pool_size } }
    }

    pub fn pool_size(&self) -> (r: usize)
        ensures
            r == self.pool_size_spec(),
    {
        self.pool_size
    }
}

impl LimitedDispatcher {
    pub closed spec fn parallelism_spec(&self) -> usize {
        self.parallelism
    }

    pub fn new(parallelism: usize) -> (r: Self)
        ensures
            r.parallelism_spec() == granted(parallelism),
    {
        Self { parallelism: if parallelism == 0 { 1 } else { parallelism } }
    }

    pub fn parallelism(&self) -> (r: usize)
        ensures
            r == self.parallelism_spec(),
    {
        self.parallelism
    }
}

/// The dispatchers, as one type.
#[derive(Debug, Clone, Copy)]
pub enum DispatcherEnum {
    Default(DefaultDispatcher),
    Main(MainDispatcher),
    Cpu(CpuDispatcher),
    Io(IoDispatcher),
    Limited(LimitedDispatcher),
}

/// Whether a dispatcher hands work to another thread: all but the main one.
pub open spec fn dispatch_needed(d: DispatcherEnum) -> bool {
    !(d is Main)
}

impl DispatcherEnum {
    pub fn is_dispatch_needed(&self) -> (r: bool)
        ensures
            r == dispatch_needed(*self),
    {
        match self {
            DispatcherEnum::Main(_) => false,
            _ => true,
        }
    }

    /// Every dispatcher limits to a `LimitedDispatcher` of the requested
    /// parallelism (at least one).
    pub fn limit_parallelism(&self, parallelism: usize) -> (r: DispatcherEnum)
        ensures
            r matches DispatcherEnum::Limited(l) && l.parallelism_spec() == granted(parallelism),
    {
        DispatcherEnum::Limited(LimitedDispatcher::new(parallelism))
    }
}

/// Standard dispatchers
pub struct Dispatchers;

impl Dispatchers {
    pub fn default() -> (r: DispatcherEnum)
        ensures
            r is Default,
    {
        DispatcherEnum::Default(DefaultDispatcher)
    }

    pub fn main() -> (r: DispatcherEnum)
        ensures
            r is Main,
    {
        DispatcherEnum::Main(MainDispatcher)
    }

    pub fn io() -> (r: DispatcherEnum)
        ensures
            r is Io,
    {
        DispatcherEnum::Io(IoDispatcher)
    }

    /// The unconfined dispatcher is the default one.
    pub fn unconfined() -> (r: DispatcherEnum)
        ensures
            r is Default,
    {
        DispatcherEnum::Default(DefaultDispatcher)
    }
}

} // verus!
