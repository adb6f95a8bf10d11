# userspace

Building blocks of a userspace kernel-emulation library, verified with Verus.

- `src/` is the verified library: channel and job/deferred state machines,
  an eBPF interpreter, io_uring ring arithmetic and the epoll-based ring
  emulator's bookkeeping, tensor layouts and a bump allocator, protocol
  detection, routing-table and `/proc` parsing, the record formats and read
  paths of two document stores, and the uploader's URL, retry and argument
  logic. Every function carries a contract; laws that relate several
  functions are public proof functions (`law_*`).
- `app/` is ordinary Rust around it: tokio plumbing, system calls, memory
  maps, files, sockets and the HTTP client.
- `tests/` runs the library on concrete values.
