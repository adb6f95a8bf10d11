use userspace::kernel::densified_ops::{densified_compare, densified_copy, densified_xor};
use userspace::kernel::ebpf::{Instruction, JitCompiler, Opcode, Program, VM};
use userspace::kernel::ebpf_mmap::{DType, TensorHandle, TensorRegistry, TensorVM};
use userspace::kernel::endgame_bypass::{IoUringParams, SyscallCounters};
use userspace::kernel::io_uring::{
    build_dispatch_sqe, find_completion, kernel_dispatch_sqe, kernel_ops, lookup_kernel_op, plan_bulk, plan_reap,
    plan_submit, ring_layout, setup_flags, KernelCQE, KernelSQE, OpCode, IORING_SETUP_CQSIZE,
    IORING_SETUP_DEFER_TASKRUN, IORING_SETUP_IOPOLL, IORING_SETUP_SINGLE_ISSUER,
    IORING_SETUP_SQPOLL, IORING_SETUP_SQ_AFF, SYS_IO_URING_ENTER, SYS_IO_URING_REGISTER,
    SYS_IO_URING_SETUP,
};
use userspace::kernel::kernel_capabilities::{
    kernel_version_supports_io_uring, CapabilityProbes, SystemCapabilities,
};
use userspace::kernel::syscall::{SyscallCqe, SyscallSqe};
use userspace::kernel::syscall_net::{
    default_gateway_from_route_table, default_gateway_v6_from_route_table,
};
use userspace::kernel::tethering_bypass::{ipv4, TetheringConfig, TetheringSession};
use userspace::kernel::uring_emulator::{
    syscall_request, EpollRequest, FdOpState, IoOutcome, OpType, PendingOp, SyscallRequest,
    UringEmulatorCore,
};
use userspace::kernel::uring_ops::{OpBuilder, UringOpBuilder};

fn inst(opcode: Opcode, dst: u8, src: u8, offset: i16, imm: i32) -> Instruction {
    Instruction { opcode, dst, src, offset, imm }
}

#[test]
fn test_simple_program() {
    let mut program = Program::new("test");
    // mov r0, 42
    program.add_instruction(inst(Opcode::Mov, 0, 0, 0, 42));
    // exit
    program.add_instruction(inst(Opcode::Exit, 0, 0, 0, 0));

    let mut vm = VM::new(4096);
    vm.load_program(program).unwrap();

    let result = vm.execute("test", &[]).unwrap();
    assert_eq!(result, 42);
}

#[test]
fn test_arithmetic() {
    let mut program = Program::new("arithmetic");
    // mov r0, 10
    program.add_instruction(inst(Opcode::Mov, 0, 0, 0, 10));
    // add r0, 32
    program.add_instruction(inst(Opcode::Add, 0, 0, 0, 32));
    // exit
    program.add_instruction(inst(Opcode::Exit, 0, 0, 0, 0));

    let mut vm = VM::new(4096);
    vm.load_program(program).unwrap();

    let result = vm.execute("arithmetic", &[]).unwrap();
    assert_eq!(result, 42);
}

#[test]
fn vm_reports_missing_and_empty_programs() {
    let mut vm = VM::new(64);
    assert_eq!(vm.execute("nope", &[]), Err("Program 'nope' not found".to_string()));
    assert_eq!(
        vm.load_program(Program::new("empty")),
        Err("Cannot load empty program".to_string())
    );
}

#[test]
fn vm_rejects_bad_register() {
    let mut program = Program::new("bad");
    program.add_instruction(inst(Opcode::Mov, 11, 0, 0, 1));
    program.add_instruction(inst(Opcode::Exit, 0, 0, 0, 0));
    let mut vm = VM::new(64);
    vm.load_program(program).unwrap();
    assert_eq!(vm.execute("bad", &[]), Err("Invalid dst register index: 11".to_string()));
}

#[test]
fn vm_conditional_jump_and_unimplemented_opcodes() {
    // a taken jump moves pc by its offset: 0 mov r0,14; 1 jeq r0,14,+2; 2 mov r0,0; 3 sub r0,4; 4 exit
    let mut program = Program::new("jump");
    program.add_instruction(inst(Opcode::Mov, 0, 0, 0, 14));
    program.add_instruction(inst(Opcode::Jeq, 0, 0, 2, 14));
    program.add_instruction(inst(Opcode::Mov, 0, 0, 0, 0));
    program.add_instruction(inst(Opcode::Sub, 0, 0, 0, 4));
    program.add_instruction(inst(Opcode::Exit, 0, 0, 0, 0));
    let mut vm = VM::new(64);
    vm.load_program(program).unwrap();
    assert_eq!(vm.execute("jump", &[]), Ok(10));

    let mut div = Program::new("div");
    div.add_instruction(inst(Opcode::Mov, 1, 0, 0, 7));
    div.add_instruction(inst(Opcode::Div, 0, 1, 0, 0));
    vm.load_program(div).unwrap();
    assert_eq!(vm.execute("div", &[]), Err("Unimplemented opcode: Div".to_string()));
}

#[test]
fn vm_reloading_a_name_replaces_the_program() {
    let mut vm = VM::new(64);
    let mut a = Program::new("p");
    a.add_instruction(inst(Opcode::Mov, 0, 0, 0, 1));
    a.add_instruction(inst(Opcode::Exit, 0, 0, 0, 0));
    let mut b = Program::new("p");
    b.add_instruction(inst(Opcode::Mov, 0, 0, 0, 2));
    b.add_instruction(inst(Opcode::Exit, 0, 0, 0, 0));
    vm.load_program(a).unwrap();
    vm.load_program(b).unwrap();
    assert_eq!(vm.execute("p", &[]), Ok(2));
}

#[test]
fn jit_compiles_to_a_single_nop() {
    let jit = JitCompiler::new("x86_64");
    let mut p = Program::new("p");
    p.add_instruction(inst(Opcode::Exit, 0, 0, 0, 0));
    assert_eq!(jit.compile(&p), Ok(vec![0x90]));
}

fn sqe_with(opcode: u8, fd: i32, addr: u64, len: u32, user_data: u64) -> KernelSQE {
    KernelSQE {
        opcode,
        flags: 0,
        ioprio: 0,
        fd,
        off_addr2: 0,
        addr,
        len,
        rw_flags: 0,
        user_data,
        buf_index: 0,
        personality: 0,
        splice_fd_in: -1,
        addr3: 0,
        resv: 0,
    }
}

#[test]
fn test_kernel_sqe_construction() {
    let sqe = sqe_with(OpCode::READV, 10, 0x1000, 4096, 123);
    assert_eq!(sqe.fd, 10);
    assert_eq!(sqe.len, 4096);
    assert_eq!(sqe.user_data, 123);
    assert_eq!(std::mem::size_of::<KernelSQE>(), 64);
}

#[test]
fn test_kernel_cqe_construction() {
    let cqe = KernelCQE { user_data: 123, res: 1024, flags: 0 };
    assert_eq!(cqe.res, 1024);
    assert_eq!(std::mem::size_of::<KernelCQE>(), 16);
}

#[test]
fn test_opcode_constants() {
    assert_eq!(OpCode::NOP, 0);
    assert_eq!(OpCode::READV, 1);
    assert_eq!(OpCode::WRITEV, 2);
    assert_eq!(OpCode::READ_FIXED, 4);
    assert_eq!(OpCode::WRITE_FIXED, 5);
    assert_eq!(OpCode::POLL_ADD, 6);
    assert_eq!(OpCode::RECV, 10);
    assert_eq!(OpCode::SEND, 11);
}

#[test]
fn test_kernel_ops_table() {
    let ops = kernel_ops();
    assert_eq!(ops.len(), 4);
    assert_eq!(ops[0].0, "read");
    assert_eq!(ops[1].0, "write");
    assert_eq!(ops[2].0, "recv");
    assert_eq!(ops[3].0, "send");
}

#[test]
fn test_uring_constants() {
    assert_eq!(IORING_SETUP_IOPOLL, 1);
    assert_eq!(IORING_SETUP_SQPOLL, 2);
    assert_eq!(IORING_SETUP_SQ_AFF, 4);
    assert_eq!(IORING_SETUP_CQSIZE, 8);
    assert_eq!(IORING_SETUP_SINGLE_ISSUER, 4096);
    assert_eq!(IORING_SETUP_DEFER_TASKRUN, 8192);
}

#[test]
fn test_syscall_constants() {
    assert_eq!(SYS_IO_URING_SETUP, 425);
    assert_eq!(SYS_IO_URING_ENTER, 426);
    assert_eq!(SYS_IO_URING_REGISTER, 427);
}

#[test]
fn kernel_op_lookup_follows_the_table() {
    assert_eq!(lookup_kernel_op("read"), Some(1));
    assert_eq!(lookup_kernel_op("write"), Some(2));
    assert_eq!(lookup_kernel_op("recv"), Some(10));
    assert_eq!(lookup_kernel_op("send"), Some(11));
    assert_eq!(lookup_kernel_op("mmap"), None);
}

#[test]
fn dispatch_entry_carries_buffer_and_user_data() {
    let sqe = build_dispatch_sqe("send", 0x2000, 5, 77).unwrap();
    assert_eq!(sqe.opcode, 11);
    assert_eq!(sqe.fd, -1);
    assert_eq!(sqe.addr, 0x2000);
    assert_eq!(sqe.len, 5);
    assert_eq!(sqe.user_data, 77);
    assert!(build_dispatch_sqe("fsync", 0x2000, 5, 77).is_none());
}

#[test]
fn submission_ring_planning() {
    // an empty ring of 4 entries takes a submission at tail & mask
    assert_eq!(plan_submit(0, 5, 4, 3), None); // 5 pending of 4 -> full
    assert_eq!(plan_submit(2, 5, 4, 3), Some((1, 6)));
    // tail wraps around at 2^32
    assert_eq!(plan_submit(u32::MAX, u32::MAX, 4, 3), Some((3, 0)));
    // bulk: 3 used of 4 leaves one slot
    let (slots, tail) = plan_bulk(0, 3, 4, 3, 5);
    assert_eq!(slots, vec![3]);
    assert_eq!(tail, 4);
    // completions between head 6 and tail 9 in a ring of mask 3
    assert_eq!(plan_reap(6, 9, 3), vec![2, 3, 0]);
}

#[test]
fn completion_search_finds_first_match() {
    let cqes = vec![
        KernelCQE { user_data: 1, res: 10, flags: 0 },
        KernelCQE { user_data: 2, res: 20, flags: 0 },
        KernelCQE { user_data: 2, res: 30, flags: 0 },
    ];
    assert_eq!(find_completion(&cqes, 2), Some(20));
    assert_eq!(find_completion(&cqes, 3), None);
}

#[test]
fn ring_layout_from_kernel_parameters() {
    let mut p = IoUringParams::zeroed();
    p.sq_entries = 8;
    p.cq_entries = 16;
    p.sq_off.array = 64;
    p.cq_off.cqes = 128;
    let l = ring_layout(&p);
    assert_eq!(l.sq_ring_size, 64 + 8 * 4);
    assert_eq!(l.cq_ring_size, 128 + 16 * 16);
    assert_eq!(l.sqes_size, 8 * 64);
    assert_eq!(l.sq_mask, 7);
    assert_eq!(l.cq_mask, 15);
    assert_eq!(setup_flags(), 4096 | 8192);
}

#[test]
fn densified_parameters_and_counters() {
    let p = IoUringParams::densified();
    assert_eq!(p.sq_entries, 128);
    assert_eq!(p.cq_entries, 256);
    assert_eq!(p.flags, 0);
    let mut c = SyscallCounters::new();
    c.record_bypass();
    c.record_bypass();
    assert_eq!(c.metrics(), (0, 2));
    c.bypass_count = u64::MAX;
    c.record_bypass();
    assert_eq!(c.metrics(), (0, 0));
}

#[test]
fn test_syscall_sqe_abi_64_bytes() {
    let sqe = SyscallSqe {
        opcode: 0,
        flags: 0,
        ioprio: 0,
        fd: -1,
        off_addr2: 0,
        addr: 0,
        len: 0,
        rw_flags: 0,
        user_data: 0,
        buf_index: 0,
        personality: 0,
        splice_fd_in: 0,
        addr3: 0,
        resv: 0,
    };
    assert_eq!(std::mem::size_of::<SyscallSqe>(), 64, "SQE must be 64 bytes for kernel ABI");
    assert_eq!(sqe.fd, -1);
}

#[test]
fn test_syscall_cqe_abi_16_bytes() {
    let _cqe = SyscallCqe { res: 0, flags: 0, user_data: 0 };
    assert_eq!(std::mem::size_of::<SyscallCqe>(), 16, "CQE must be 16 bytes for kernel ABI");
}

#[test]
fn test_densified_copy() {
    let src = vec![1u8, 2, 3, 4, 5, 6, 7, 8];
    let mut dst = vec![0u8; 8];
    densified_copy(&src, &mut dst, 8);
    assert_eq!(src, dst);
}

#[test]
fn densified_copy_leaves_the_tail() {
    let src = vec![9u8, 9, 9];
    let mut dst = vec![1u8, 2, 3, 4, 5];
    densified_copy(&src, &mut dst, 2);
    assert_eq!(dst, vec![9, 9, 3, 4, 5]);
}

#[test]
fn test_densified_compare() {
    let a = vec![1u8, 2, 3, 4];
    let b = vec![1u8, 2, 3, 4];
    let c = vec![1u8, 2, 4, 4];
    assert_eq!(densified_compare(&a, &b, 4), 0);
    assert_ne!(densified_compare(&a, &c, 4), 0);
}

#[test]
fn densified_compare_gives_first_difference() {
    let a = vec![1u8, 2, 3, 4, 5, 6, 7, 8, 9, 200];
    let b = vec![1u8, 2, 3, 4, 5, 6, 7, 8, 9, 10];
    assert_eq!(densified_compare(&a, &b, 10), 190);
    assert_eq!(densified_compare(&b, &a, 10), -190);
    assert_eq!(densified_compare(&a, &b, 9), 0);
}

#[test]
fn test_densified_xor() {
    let a = vec![0xFF, 0x00, 0xFF, 0x00];
    let b = vec![0x00, 0xFF, 0xFF, 0x00];
    let mut dst = vec![0u8; 4];
    densified_xor(&a, &b, &mut dst, 4);
    assert_eq!(dst, vec![0xFF, 0xFF, 0x00, 0x00]);
}

#[test]
fn test_tensor_handle() {
    let tensor = TensorHandle::new(0, DType::F32, vec![2, 3], 0);
    assert_eq!(tensor.shape, vec![2, 3]);
    assert_eq!(tensor.byte_len, 24); // 2*3*4 bytes
    assert_eq!(tensor.strides, vec![12, 4]);
}

#[test]
fn test_tensor_registry() {
    let mut registry = TensorRegistry::new();
    let tensor = registry.create_tensor(DType::F32, vec![10, 10], 0);
    assert_eq!(tensor.id, 0);
    assert!(registry.get(0).is_some());
    assert!(registry.get(1).is_none());
    let second = registry.create_tensor(DType::U8, vec![4], 400);
    assert_eq!(second.id, 1);
    assert_eq!(registry.get(1).unwrap().offset, 400);
}

#[test]
fn test_tensor_vm_alloc() {
    let mut vm = TensorVM::new(1024);
    let t1 = vm.alloc_tensor(DType::F32, vec![4, 4]).expect("alloc1"); // 16 * 4 = 64 bytes
    let t2 = vm.alloc_tensor(DType::F32, vec![8, 8]).expect("alloc2"); // 64 * 4 = 256 bytes

    // Ensure offsets are distinct and non-overlapping
    assert_ne!(t1.offset, t2.offset);
    let end1 = t1.offset + t1.byte_len;
    let end2 = t2.offset + t2.byte_len;
    assert!(end1 <= t2.offset || end2 <= t1.offset, "allocations overlap");
    // Ensure within backend
    assert!(end2 <= vm.mem_len);
}

#[test]
fn tensor_vm_refuses_what_does_not_fit() {
    let mut vm = TensorVM::new(100);
    let t = vm.alloc_tensor(DType::U64, vec![10]).unwrap();
    assert_eq!((t.offset, t.byte_len), (0, 80));
    // the bump pointer moves even when the allocation is refused
    assert_eq!(vm.alloc_tensor(DType::U64, vec![10]).err(), Some("out of memory".to_string()));
    assert_eq!(vm.next_offset, 160);
    assert_eq!(
        vm.alloc_tensor(DType::U64, vec![usize::MAX / 4]).err(),
        Some("size overflow".to_string())
    );
}

#[test]
fn tensor_handle_bounds_and_element_size() {
    let t = TensorHandle::new(3, DType::U32, vec![4], 8);
    assert_eq!(t.byte_range(24), Some((8, 24)));
    assert_eq!(t.byte_range(23), None);
    assert!(t.check_elem_size(4).is_ok());
    assert_eq!(t.check_elem_size(8), Err("Type size mismatch".to_string()));
}

#[test]
fn test_system_capabilities_detection() {
    // SIMD extensions are found at compile time; an x86_64 build always has SSE2.
    let caps = SystemCapabilities::from_probes(CapabilityProbes {
        io_uring_entry_exists: true,
        kernel_version: Some("6.8.0-generic".to_string()),
        bpf_fs_exists: true,
        bpf_jit_entry_exists: false,
        meminfo: Some("MemTotal: 1 kB\nHugePages_Total:       0\n".to_string()),
        cpuinfo: Some("flags : fpu vme\n".to_string()),
        simd_extensions: vec!["SSE2".to_string()],
    });
    assert!(caps.simd_extensions.len() > 0, "No SIMD extensions detected");
    assert!(caps.io_uring_available);
    assert!(!caps.ebpf_capable);
    assert!(caps.hugepages_available);
    assert!(!caps.numa_supported);
}

#[test]
fn kernel_versions_for_io_uring() {
    assert!(kernel_version_supports_io_uring("5.1"));
    assert!(kernel_version_supports_io_uring("5.15.0-91-generic"));
    assert!(kernel_version_supports_io_uring("6.0"));
    assert!(!kernel_version_supports_io_uring("5.0.21"));
    assert!(!kernel_version_supports_io_uring("4.19"));
    assert!(!kernel_version_supports_io_uring("5"));
    assert!(!kernel_version_supports_io_uring("5.x"));
    assert!(kernel_version_supports_io_uring("+5.+1"));
}

#[test]
fn test_tethering_config() {
    let config = TetheringConfig::new(ipv4(192, 168, 100, 1), ipv4(192, 168, 100, 2));
    assert_eq!(config.local_ip, ipv4(192, 168, 100, 1));
    assert_eq!(config.peer_ip, ipv4(192, 168, 100, 2));
}

#[test]
fn test_network_calculation() {
    let config = TetheringConfig::new(ipv4(192, 168, 100, 10), ipv4(192, 168, 100, 20));
    assert_eq!(config.network(), ipv4(192, 168, 100, 0));
}

#[test]
fn tethering_defaults_and_session() {
    let d = TetheringConfig::default();
    assert_eq!(d.local_ip, 0xC0A8_2A01);
    assert_eq!(d.netmask, 0xFFFF_FF00);
    assert_eq!(d.mtu, 1500);
    let s = TetheringSession::new(d);
    assert_eq!(s.local_addr(), (0xC0A8_2A01, 0));
    assert_eq!(s.peer_addr(), (0xC0A8_2A02, 0));
}

#[test]
fn default_gateway_from_proc_route() {
    let table = "Iface\tDestination\tGateway \tFlags\tRefCnt\tUse\tMetric\tMask\n\
                 eth0\t0000FEA9\t00000000\t0001\t0\t0\t1000\t0000FFFF\n\
                 eth0\t00000000\t0101A8C0\t0003\t0\t0\t100\t00000000\n";
    assert_eq!(default_gateway_from_route_table(table.as_bytes()), Some([192, 168, 1, 1]));
    assert_eq!(default_gateway_from_route_table(b"Iface Destination Gateway\n"), None);
    // a default line whose gateway does not read as hexadecimal is skipped
    let odd = "eth0 00000000 zz\nwlan0 00000000 0A000001\n";
    assert_eq!(default_gateway_from_route_table(odd.as_bytes()), Some([1, 0, 0, 10]));
    let proc_text = "Iface\tDestination\tGateway\tFlags\neth0\t00000000\t0100A8C0\t0003\n";
    assert_eq!(default_gateway_from_route_table(proc_text.as_bytes()), Some([192, 168, 0, 1]));
}

#[test]
fn default_gateway_from_proc_ipv6_route() {
    let zero = "00000000000000000000000000000000";
    let gw = "fe800000000000000000000000000001";
    let table = format!(
        "{} 00 {} 00 {} 00000400 00000001 00000000 00000003 eth0\n",
        zero, zero, gw
    );
    let mut expected = vec![0u8; 16];
    expected[0] = 0xfe;
    expected[1] = 0x80;
    expected[15] = 0x01;
    assert_eq!(default_gateway_v6_from_route_table(table.as_bytes()), Some(expected));
    let none = format!("{} 00 {} 00 {} 0 0 0 0 lo\n", zero, zero, zero);
    assert_eq!(default_gateway_v6_from_route_table(none.as_bytes()), None);
}

#[test]
fn test_emulator_creation() {
    let emulator = UringEmulatorCore::new(32, Some(3));
    assert_eq!(emulator.entries(), 32);
    assert_eq!(emulator.epoll_fd(), Some(3));
}

#[test]
fn test_emulator_queue_nop() {
    let mut emulator = UringEmulatorCore::new(32, Some(3));
    emulator.push_op(PendingOp::nop(123));
    let ops = emulator.take_pending();
    assert_eq!(ops.len(), 1);
    for op in &ops {
        emulator.record(op, IoOutcome::Done(0));
    }
    let completions = emulator.take_completions();
    assert_eq!(completions.len(), 1);
    assert_eq!(completions[0].user_data, 123);
    assert!(completions[0].result.is_ok());
}

#[test]
fn op_builders_queue_what_they_describe() {
    let op = UringOpBuilder::read_at(7, 512, 4).user_data(9).into_pending();
    assert_eq!(op.fd, 7);
    assert_eq!(op.user_data, 9);
    assert_eq!(op.buf, Some(vec![0u8; 4]));
    assert_eq!(op.offset, Some(512));
    let nop = UringOpBuilder { fd: 5, op: OpBuilder::Nop, user_data: 1 }.into_pending();
    assert_eq!(nop.fd, -1);
    assert!(nop.buf.is_none());
}

#[test]
fn kernel_dispatch_tags_entries_with_the_xxh3_hash() {
    let data = b"payload".to_vec();
    let sqe = kernel_dispatch_sqe("write", &data).unwrap();
    assert_eq!(sqe.opcode, 2);
    assert_eq!(sqe.len, 7);
    assert_eq!(sqe.addr, data.as_ptr() as u64);
    assert_eq!(sqe.user_data, xxhash_rust::xxh3::xxh3_64(b"payload"));
    assert_ne!(sqe.user_data, 0);
    assert!(kernel_dispatch_sqe("unknown", &data).is_none());
}

#[test]
fn running_a_program_twice_gives_the_same_result() {
    let mut program = Program::new("twice");
    program.add_instruction(inst(Opcode::Mov, 0, 0, 0, 5));
    program.add_instruction(inst(Opcode::Add, 0, 0, 0, 6));
    program.add_instruction(inst(Opcode::Exit, 0, 0, 0, 0));
    let mut vm = VM::new(16);
    vm.load_program(program).unwrap();
    let first = vm.execute("twice", &[]);
    vm.reset();
    let second = vm.execute("twice", &[]);
    assert_eq!(first, Ok(11));
    assert_eq!(first, second);
}

#[test]
fn ready_operations_run_and_the_rest_stay_queued() {
    let mut emulator = UringEmulatorCore::new(8, Some(3));
    // fd 5 is registered for input but not yet readable
    assert!(emulator.plan_register(5, true, false).is_some());
    emulator.confirm_add(5, false, false);
    emulator.push_op(PendingOp::read(5, &[0u8; 4], 1));
    emulator.push_op(PendingOp::nop(2));
    let ready = emulator.take_ready();
    assert_eq!(ready.len(), 1);
    assert_eq!(ready[0].user_data, 2);
    assert_eq!(emulator.pending_len(), 1);
    // once epoll reports input, the read becomes ready
    emulator.apply_event(5, 0x1);
    let ready = emulator.take_ready();
    assert_eq!(ready.len(), 1);
    assert_eq!(ready[0].user_data, 1);
    assert_eq!(emulator.pending_len(), 0);
}

#[test]
fn queued_write_sends_its_buffer() {
    let op = PendingOp {
        fd: 7,
        op: OpType::Write { len: 11 },
        user_data: 1,
        buf: Some(b"hello world".to_vec()),
        offset: None,
    };
    match syscall_request(&op) {
        SyscallRequest::Write { fd, data } => {
            assert_eq!(fd, 7);
            assert_eq!(data, b"hello world".to_vec());
        }
        _ => panic!("a write op is a write"),
    }
    let at = PendingOp {
        fd: 3,
        op: OpType::WriteAt { offset: 64, len: 4 },
        user_data: 2,
        buf: Some(b"ab".to_vec()),
        offset: Some(64),
    };
    match syscall_request(&at) {
        SyscallRequest::WriteAt { fd, data, offset } => {
            assert_eq!((fd, offset), (3, 64));
            assert_eq!(data, vec![b'a', b'b', 0, 0]);
        }
        _ => panic!("a positioned write op is a positioned write"),
    }
}

#[test]
fn registered_descriptor_stays_registered_and_flags_accumulate() {
    let mut core = UringEmulatorCore::new(32, Some(9));
    match core.plan_register(4, true, false) {
        Some(EpollRequest::Add { fd, .. }) => assert_eq!(fd, 4),
        _ => panic!("a new descriptor needs an Add"),
    }
    core.confirm_add(4, true, false);
    match core.plan_register(4, false, true) {
        Some(EpollRequest::Modify { fd, .. }) => assert_eq!(fd, 4),
        _ => panic!("a known descriptor needs a Modify"),
    }
    assert_eq!(
        core.state_of(4),
        Some(FdOpState { readable: true, writable: true, registered: true })
    );
    let mut plain = UringEmulatorCore::new(32, None);
    assert!(plain.plan_register(4, true, true).is_none());
    assert_eq!(plain.state_of(4), None);
}
