//! Userspace kernel emulation building blocks: channels for structured
//! concurrency, an eBPF interpreter, io_uring ring bookkeeping, network
//! protocol detection, tensor layout and a log-structured document store.
pub mod concurrency;
pub mod database;
pub mod dsel;
pub mod kernel;
pub mod network;
pub mod nio;
pub mod oroboros;
pub mod tensor;
pub mod scan;
pub mod text;
