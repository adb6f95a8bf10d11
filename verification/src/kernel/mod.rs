pub mod ebpf;
pub mod io_uring;
pub mod syscall;
pub mod uring_emulator;
pub mod ebpf_mmap;
pub mod densified_ops;
pub mod syscall_net;
pub mod kernel_capabilities;
pub mod endgame_bypass;
pub mod tethering_bypass;
pub mod uring_ops;
