//! Userspace eBPF program representation and interpreter.
use vstd::prelude::*;
use crate::text::{decimal, push_decimal_u8};

verus! {

/// eBPF instruction opcodes
#[derive(Debug, Clone, Copy, PartialEq, Eq, Structural)]
pub enum Opcode {
    Add,
    Sub,
    Mul,
    Div,
    Or,
    And,
    Lsh,
    Rsh,
    Neg,
    Mod,
    Xor,
    Mov,
    Load,
    Store,
    Ja,
    Jeq,
    Jgt,
    Jge,
    Jlt,
    Jle,
    Jne,
    Call,
    Exit,
}

/// eBPF instruction
#[derive(Debug, Clone, Copy)]
pub struct Instruction {
    pub opcode: Opcode,
    pub dst: u8,
    pub src: u8,
    pub offset: i16,
    pub imm: i32,
}

/// eBPF program
#[derive(Debug, Clone)]
pub struct Program {
    pub instructions: Vec<Instruction>,
    pub name: String,
}

/// Number of registers of the virtual machine (r0 to r10).
pub const NUM_REGISTERS: usize = 11;

/// Longest program the interpreter runs: a jump target `pc + offset` must be
/// computable in 32-bit signed arithmetic.
pub const MAX_PROGRAM_LEN: usize = 0x7fff_0000;

impl Program {
    pub fn new(name: &str) -> (r: Self)
        ensures
            r.name@ == name@,
            r.instructions@ == Seq::<Instruction>::empty(),
    {
        Self { instructions: Vec::new(), name: String::from_str(name) }
    }

    pub fn add_instruction(&mut self, inst: Instruction)
        ensures
            final(self).name == old(self).name,
            final(self).instructions@ == old(self).instructions@.push(inst),
    {
        self.instructions.push(inst);
    }

    pub fn len(&self) -> (r: usize)
        ensures
            r == self.instructions@.len(),
    {
        self.instructions.len()
    }

    pub fn is_empty(&self) -> (r: bool)
        ensures
            r == (self.instructions@.len() == 0),
    {
        self.instructions.len() == 0
    }
}

/// Why a run stopped without an exit.
#[derive(Debug, Clone, Copy, PartialEq, Eq, Structural)]
pub enum VmFault {
    InvalidDst(u8),
    InvalidSrc(u8),
    Unimplemented(Opcode),
}

/// How a run of the interpreter ends.
#[derive(Debug, Clone, Copy, PartialEq, Eq, Structural)]
pub enum Outcome {
    Exit(u64),
    Fault(VmFault),
}

/// The operand of an instruction: the sign-extended immediate when the source
/// register field is 0, the source register otherwise.
pub open spec fn operand(inst: Instruction, regs: Seq<u64>) -> u64 {
    if inst.src == 0 {
        inst.imm as u64
    } else {
        regs[inst.src as int]
    }
}

/// Whether executing the instruction at `pc` stops the machine, and how.
/// A `pc` outside the program ends the run with the value of r0.
pub open spec fn step_stop(instrs: Seq<Instruction>, regs: Seq<u64>, pc: int) -> Option<Outcome> {
    if pc < 0 || pc >= instrs.len() {
        Some(Outcome::Exit(regs[0]))
    } else {
        let inst = instrs[pc];
        if inst.dst >= 11 {
            Some(Outcome::Fault(VmFault::InvalidDst(inst.dst)))
        } else if inst.src != 0 && inst.src >= 11 {
            Some(Outcome::Fault(VmFault::InvalidSrc(inst.src)))
        } else {
            match inst.opcode {
                Opcode::Mov | Opcode::Add | Opcode::Sub | Opcode::Jeq => None,
                Opcode::Exit => Some(Outcome::Exit(regs[0])),
                _ => Some(Outcome::Fault(VmFault::Unimplemented(inst.opcode))),
            }
        }
    }
}

/// Registers after executing the (non-stopping) instruction at `pc`.
pub open spec fn step_regs(instrs: Seq<Instruction>, regs: Seq<u64>, pc: int) -> Seq<u64> {
    let inst = instrs[pc];
    let v = operand(inst, regs);
    let d = inst.dst as int;
    match inst.opcode {
        Opcode::Mov => regs.update(d, v),
        Opcode::Add => regs.update(d, vstd::wrapping::u64_specs::wrapping_add(regs[d], v)),
        Opcode::Sub => regs.update(d, vstd::wrapping::u64_specs::wrapping_sub(regs[d], v)),
        _ => regs,
    }
}

/// Program counter after executing the (non-stopping) instruction at `pc`:
/// a taken `Jeq` moves by its offset, everything else falls through.
pub open spec fn step_pc(instrs: Seq<Instruction>, regs: Seq<u64>, pc: int) -> int {
    let inst = instrs[pc];
    if inst.opcode == Opcode::Jeq && regs[inst.dst as int] == operand(inst, regs) {
        pc + inst.offset as int
    } else {
        pc + 1
    }
}

/// Run for at most `fuel` instructions from `pc`: the outcome together with
/// the registers at the stop, or `None` when the fuel runs out first.
pub open spec fn run(instrs: Seq<Instruction>, regs: Seq<u64>, pc: int, fuel: nat) -> Option<
    (Outcome, Seq<u64>),
>
    decreases fuel,
{
    if fuel == 0 {
        None
    } else {
        match step_stop(instrs, regs, pc) {
            Some(o) => Some((o, regs)),
            None => run(
                instrs,
                step_regs(instrs, regs, pc),
                step_pc(instrs, regs, pc),
                (fuel - 1) as nat,
            ),
        }
    }
}

/// The program stops when started at its first instruction with `regs`.
pub open spec fn halts(instrs: Seq<Instruction>, regs: Seq<u64>) -> bool {
    exists|f: nat| #[trigger] run(instrs, regs, 0, f) is Some
}

/// The outcome and final registers of a halting run.
pub open spec fn result(instrs: Seq<Instruction>, regs: Seq<u64>) -> (Outcome, Seq<u64>) {
    run(instrs, regs, 0, choose|f: nat| #[trigger] run(instrs, regs, 0, f) is Some).unwrap()
}

/// More fuel never changes a finished run.
pub proof fn lemma_run_fuel_mono(
    instrs: Seq<Instruction>,
    regs: Seq<u64>,
    pc: int,
    f1: nat,
    f2: nat,
)
    requires
        run(instrs, regs, pc, f1) is Some,
        f1 <= f2,
    ensures
        run(instrs, regs, pc, f2) == run(instrs, regs, pc, f1),
    decreases f1,
{
    if step_stop(instrs, regs, pc) is None {
        lemma_run_fuel_mono(
            instrs,
            step_regs(instrs, regs, pc),
            step_pc(instrs, regs, pc),
            (f1 - 1) as nat,
            (f2 - 1) as nat,
        );
    }
}

/// Any fuel that finishes the run gives the same outcome: the machine is
/// deterministic.
pub proof fn lemma_run_deterministic(
    instrs: Seq<Instruction>,
    regs: Seq<u64>,
    pc: int,
    f1: nat,
    f2: nat,
)
    requires
        run(instrs, regs, pc, f1) is Some,
        run(instrs, regs, pc, f2) is Some,
    ensures
        run(instrs, regs, pc, f1) == run(instrs, regs, pc, f2),
{
    if f1 <= f2 {
        lemma_run_fuel_mono(instrs, regs, pc, f1, f2);
    } else {
        lemma_run_fuel_mono(instrs, regs, pc, f2, f1);
    }
}

/// The registers at which a run starts: the machine's current registers with
/// r1 holding the context address and r10 the top of the machine's memory.
pub open spec fn start_regs(regs: Seq<u64>, ctx_addr: u64, frame_top: u64) -> Seq<u64> {
    regs.update(1, ctx_addr).update(10, frame_top)
}

/// Debug name of an opcode.
pub open spec fn opcode_name(op: Opcode) -> Seq<char> {
    match op {
        Opcode::Add => "Add"@,
        Opcode::Sub => "Sub"@,
        Opcode::Mul => "Mul"@,
        Opcode::Div => "Div"@,
        Opcode::Or => "Or"@,
        Opcode::And => "And"@,
        Opcode::Lsh => "Lsh"@,
        Opcode::Rsh => "Rsh"@,
        Opcode::Neg => "Neg"@,
        Opcode::Mod => "Mod"@,
        Opcode::Xor => "Xor"@,
        Opcode::Mov => "Mov"@,
        Opcode::Load => "Load"@,
        Opcode::Store => "Store"@,
        Opcode::Ja => "Ja"@,
        Opcode::Jeq => "Jeq"@,
        Opcode::Jgt => "Jgt"@,
        Opcode::Jge => "Jge"@,
        Opcode::Jlt => "Jlt"@,
        Opcode::Jle => "Jle"@,
        Opcode::Jne => "Jne"@,
        Opcode::Call => "Call"@,
        Opcode::Exit => "Exit"@,
    }
}

/// The error message of a fault.
pub open spec fn fault_message(f: VmFault) -> Seq<char> {
    match f {
        VmFault::InvalidDst(d) => "Invalid dst register index: "@ + decimal(d as nat),
        VmFault::InvalidSrc(s) => "Invalid src register index: "@ + decimal(s as nat),
        VmFault::Unimplemented(op) => "Unimplemented opcode: "@ + opcode_name(op),
    }
}

/// The error message for a program name that is not loaded.
pub open spec fn not_found_message(name: Seq<char>) -> Seq<char> {
    "Program '"@ + name + "' not found"@
}

/// The message of a refused empty program.
pub open spec fn empty_program_message() -> Seq<char> {
    "Cannot load empty program"@
}

/// What `execute` returns for a finished run.
pub open spec fn outcome_result(o: Outcome) -> Result<u64, Seq<char>> {
    match o {
        Outcome::Exit(v) => Ok(v),
        Outcome::Fault(f) => Err(fault_message(f)),
    }
}

/// Index of the loaded program called `name`, if any.
pub open spec fn program_index(progs: Seq<Program>, name: Seq<char>) -> Option<int> {
    if exists|i: int| 0 <= i < progs.len() && (#[trigger] progs[i]).name@ == name {
        Some(choose|i: int| 0 <= i < progs.len() && (#[trigger] progs[i]).name@ == name)
    } else {
        None
    }
}

/// The instructions of the loaded program called `name`, if any.
pub open spec fn lookup(progs: Seq<Program>, name: Seq<char>) -> Option<Seq<Instruction>> {
    match program_index(progs, name) {
        Some(i) => Some(progs[i].instructions@),
        None => None,
    }
}

/// No two loaded programs share a name.
pub open spec fn names_distinct(progs: Seq<Program>) -> bool {
    forall|i: int, j: int|
        0 <= i < progs.len() && 0 <= j < progs.len() && i != j ==> (#[trigger] progs[i]).name@
            != (#[trigger] progs[j]).name@
}

/// An immediate operand is the immediate sign-extended to 64 bits: as a
/// number it is the immediate modulo 2^64, so a negative immediate stands
/// for 2^64 plus it.
pub proof fn law_immediate_sign_extends(inst: Instruction, regs: Seq<u64>)
    requires
        inst.src == 0,
    ensures
        inst.imm >= 0 ==> operand(inst, regs) as int == inst.imm as int,
        inst.imm < 0 ==> operand(inst, regs) as int == inst.imm as int + 0x1_0000_0000_0000_0000,
{
    let imm = inst.imm;
    assert(imm >= 0 ==> imm as u64 == imm as int) by (bit_vector);
    assert(imm < 0 ==> (imm as u64) as int == imm as int + 0x1_0000_0000_0000_0000) by (bit_vector);
}

/// Adding an immediate adds it modulo 2^64: the program
/// `mov r0, a; add r0, b; exit` returns a + b modulo 2^64 for all 32-bit
/// immediates, negative ones included (an added -1 decrements).
pub proof fn law_add_immediates(regs: Seq<u64>, a: i32, b: i32)
    requires
        regs.len() == NUM_REGISTERS,
    ensures
        ({
            let instrs = seq![
                Instruction { opcode: Opcode::Mov, dst: 0, src: 0, offset: 0, imm: a },
                Instruction { opcode: Opcode::Add, dst: 0, src: 0, offset: 0, imm: b },
                Instruction { opcode: Opcode::Exit, dst: 0, src: 0, offset: 0, imm: 0 },
            ];
            run(instrs, regs, 0, 3) matches Some((Outcome::Exit(v), _)) && v as int == (a as int + b as int)
                % 0x1_0000_0000_0000_0000
        }),
{
    let i0 = Instruction { opcode: Opcode::Mov, dst: 0, src: 0, offset: 0, imm: a };
    let i1 = Instruction { opcode: Opcode::Add, dst: 0, src: 0, offset: 0, imm: b };
    let i2 = Instruction { opcode: Opcode::Exit, dst: 0, src: 0, offset: 0, imm: 0 };
    let instrs = seq![i0, i1, i2];
    law_immediate_sign_extends(i0, regs);
    law_immediate_sign_extends(i1, regs);
    let x = operand(i0, regs);
    let r1 = regs.update(0, x);
    law_immediate_sign_extends(i1, r1);
    let y = operand(i1, r1);
    let r2 = r1.update(0, vstd::wrapping::u64_specs::wrapping_add(x, y));
    assert(instrs[0] == i0 && instrs[1] == i1 && instrs[2] == i2);
    assert(step_stop(instrs, regs, 0) is None);
    assert(step_regs(instrs, regs, 0) == r1);
    assert(step_pc(instrs, regs, 0) == 1);
    assert(step_stop(instrs, r1, 1) is None);
    assert(step_regs(instrs, r1, 1) == r2);
    assert(step_pc(instrs, r1, 1) == 2);
    assert(step_stop(instrs, r2, 2) == Some(Outcome::Exit(r2[0])));
    assert(run(instrs, r2, 2, 1) == Some((Outcome::Exit(r2[0]), r2)));
    assert(run(instrs, r1, 1, 2) == run(instrs, r2, 2, 1));
    assert(run(instrs, regs, 0, 3) == run(instrs, r1, 1, 2));
    let m: int = 0x1_0000_0000_0000_0000;
    let v = r2[0];
    assert(v as int == (x as int + y as int) % m);
    assert((x as int + y as int) % m == (a as int + b as int) % m) by {
        let k: int = (if a < 0 { m } else { 0 }) + (if b < 0 { m } else { 0 });
        assert(x as int + y as int == a as int + b as int + k);
        vstd::arithmetic::div_mod::lemma_mod_add_multiples_vanish(a as int + b as int, m);
        vstd::arithmetic::div_mod::lemma_mod_add_multiples_vanish(a as int + b as int + m, m);
    }
}

/// Subtracting an immediate subtracts it modulo 2^64, and a register
/// source reads that register: `mov r0, a; sub r0, b; exit` returns a - b
/// modulo 2^64, and `mov r1, a; mov r0, b; add r0, r1; exit` returns
/// a + b modulo 2^64.
pub proof fn law_sub_and_register_source(regs: Seq<u64>, a: i32, b: i32)
    requires
        regs.len() == NUM_REGISTERS,
    ensures
        ({
            let sub = seq![
                Instruction { opcode: Opcode::Mov, dst: 0, src: 0, offset: 0, imm: a },
                Instruction { opcode: Opcode::Sub, dst: 0, src: 0, offset: 0, imm: b },
                Instruction { opcode: Opcode::Exit, dst: 0, src: 0, offset: 0, imm: 0 },
            ];
            run(sub, regs, 0, 3) matches Some((Outcome::Exit(v), _)) && v as int == (a as int - b as int)
                % 0x1_0000_0000_0000_0000
        }),
        ({
            let add = seq![
                Instruction { opcode: Opcode::Mov, dst: 1, src: 0, offset: 0, imm: a },
                Instruction { opcode: Opcode::Mov, dst: 0, src: 0, offset: 0, imm: b },
                Instruction { opcode: Opcode::Add, dst: 0, src: 1, offset: 0, imm: 0 },
                Instruction { opcode: Opcode::Exit, dst: 0, src: 0, offset: 0, imm: 0 },
            ];
            run(add, regs, 0, 4) matches Some((Outcome::Exit(v), _)) && v as int == (a as int + b as int)
                % 0x1_0000_0000_0000_0000
        }),
{
    let m: int = 0x1_0000_0000_0000_0000;
    let i0 = Instruction { opcode: Opcode::Mov, dst: 0, src: 0, offset: 0, imm: a };
    let i1 = Instruction { opcode: Opcode::Sub, dst: 0, src: 0, offset: 0, imm: b };
    let i2 = Instruction { opcode: Opcode::Exit, dst: 0, src: 0, offset: 0, imm: 0 };
    let sub = seq![i0, i1, i2];
    law_immediate_sign_extends(i0, regs);
    let x = operand(i0, regs);
    let r1 = regs.update(0, x);
    law_immediate_sign_extends(i1, r1);
    let y = operand(i1, r1);
    let r2 = r1.update(0, vstd::wrapping::u64_specs::wrapping_sub(x, y));
    assert(sub[0] == i0 && sub[1] == i1 && sub[2] == i2);
    assert(step_regs(sub, regs, 0) == r1);
    assert(step_pc(sub, regs, 0) == 1);
    assert(step_regs(sub, r1, 1) == r2);
    assert(step_pc(sub, r1, 1) == 2);
    assert(run(sub, r2, 2, 1) == Some((Outcome::Exit(r2[0]), r2)));
    assert(run(sub, r1, 1, 2) == run(sub, r2, 2, 1));
    assert(run(sub, regs, 0, 3) == run(sub, r1, 1, 2));
    assert(r2[0] as int == (x as int - y as int) % m);
    assert((x as int - y as int) % m == (a as int - b as int) % m) by {
        if a < 0 && b >= 0 {
            vstd::arithmetic::div_mod::lemma_mod_add_multiples_vanish(a as int - b as int, m);
        } else if a >= 0 && b < 0 {
            vstd::arithmetic::div_mod::lemma_mod_sub_multiples_vanish(a as int - b as int, m);
        }
    }
    let j0 = Instruction { opcode: Opcode::Mov, dst: 1, src: 0, offset: 0, imm: a };
    let j1 = Instruction { opcode: Opcode::Mov, dst: 0, src: 0, offset: 0, imm: b };
    let j2 = Instruction { opcode: Opcode::Add, dst: 0, src: 1, offset: 0, imm: 0 };
    let j3 = Instruction { opcode: Opcode::Exit, dst: 0, src: 0, offset: 0, imm: 0 };
    let add = seq![j0, j1, j2, j3];
    law_immediate_sign_extends(j0, regs);
    let p = operand(j0, regs);
    let s1 = regs.update(1, p);
    law_immediate_sign_extends(j1, s1);
    let q = operand(j1, s1);
    let s2 = s1.update(0, q);
    assert(operand(j2, s2) == p);
    let s3 = s2.update(0, vstd::wrapping::u64_specs::wrapping_add(q, p));
    assert(add[0] == j0 && add[1] == j1 && add[2] == j2 && add[3] == j3);
    assert(step_regs(add, regs, 0) == s1);
    assert(step_pc(add, regs, 0) == 1);
    assert(step_regs(add, s1, 1) == s2);
    assert(step_pc(add, s1, 1) == 2);
    assert(step_regs(add, s2, 2) == s3);
    assert(step_pc(add, s2, 2) == 3);
    assert(run(add, s3, 3, 1) == Some((Outcome::Exit(s3[0]), s3)));
    assert(run(add, s2, 2, 2) == run(add, s3, 3, 1));
    assert(run(add, s1, 1, 3) == run(add, s2, 2, 2));
    assert(run(add, regs, 0, 4) == run(add, s1, 1, 3));
    assert(s3[0] as int == (q as int + p as int) % m);
    assert((q as int + p as int) % m == (a as int + b as int) % m) by {
        let k: int = (if a < 0 { m } else { 0 }) + (if b < 0 { m } else { 0 });
        assert(q as int + p as int == a as int + b as int + k);
        vstd::arithmetic::div_mod::lemma_mod_add_multiples_vanish(a as int + b as int, m);
        vstd::arithmetic::div_mod::lemma_mod_add_multiples_vanish(a as int + b as int + m, m);
    }
}

/// With distinct names, the program found under the name of the one at
/// position `i` is that program.
pub proof fn lemma_lookup_at(progs: Seq<Program>, i: int)
    requires
        names_distinct(progs),
        0 <= i < progs.len(),
    ensures
        lookup(progs, progs[i].name@) == Some(progs[i].instructions@),
{
    let name = progs[i].name@;
    assert(progs[i].name@ == name);
    let c = choose|k: int| 0 <= k < progs.len() && (#[trigger] progs[k]).name@ == name;
    if c != i {
        assert(progs[c].name@ != progs[i].name@);
    }
}

/// Two program lists that agree at every position holding `name` give the
/// same lookup for it.
proof fn lemma_lookup_same(a: Seq<Program>, b: Seq<Program>, name: Seq<char>)
    requires
        names_distinct(a),
        names_distinct(b),
        forall|k: int| 0 <= k < a.len() && (#[trigger] a[k]).name@ == name ==> k < b.len() && b[k] == a[k],
        forall|k: int| 0 <= k < b.len() && (#[trigger] b[k]).name@ == name ==> k < a.len() && a[k] == b[k],
    ensures
        lookup(a, name) == lookup(b, name),
{
    if exists|k: int| 0 <= k < a.len() && (#[trigger] a[k]).name@ == name {
        let k = choose|k: int| 0 <= k < a.len() && (#[trigger] a[k]).name@ == name;
        lemma_lookup_at(a, k);
        lemma_lookup_at(b, k);
    } else if exists|k: int| 0 <= k < b.len() && (#[trigger] b[k]).name@ == name {
        let k = choose|k: int| 0 <= k < b.len() && (#[trigger] b[k]).name@ == name;
        assert(a[k] == b[k]);
    }
}

/// The address of the first byte of a slice.
#[verifier::external_body]
pub(crate) fn address_of(bytes: &[u8]) -> u64 {
    bytes.as_ptr() as u64
}

fn opcode_str(op: Opcode) -> (r: &'static str)
    ensures
        r@ == opcode_name(op),
{
    match op {
        Opcode::Add => "Add",
        Opcode::Sub => "Sub",
        Opcode::Mul => "Mul",
        Opcode::Div => "Div",
        Opcode::Or => "Or",
        Opcode::And => "And",
        Opcode::Lsh => "Lsh",
        Opcode::Rsh => "Rsh",
        Opcode::Neg => "Neg",
        Opcode::Mod => "Mod",
        Opcode::Xor => "Xor",
        Opcode::Mov => "Mov",
        Opcode::Load => "Load",
        Opcode::Store => "Store",
        Opcode::Ja => "Ja",
        Opcode::Jeq => "Jeq",
        Opcode::Jgt => "Jgt",
        Opcode::Jge => "Jge",
        Opcode::Jlt => "Jlt",
        Opcode::Jle => "Jle",
        Opcode::Jne => "Jne",
        Opcode::Call => "Call",
        Opcode::Exit => "Exit",
    }
}

fn fault_string(f: VmFault) -> (r: String)
    ensures
        r@ == fault_message(f),
{
    match f {
        VmFault::InvalidDst(d) => {
            let mut s = String::from_str("Invalid dst register index: ");
            push_decimal_u8(&mut s, d);
            s
        },
        VmFault::InvalidSrc(x) => {
            let mut s = String::from_str("Invalid src register index: ");
            push_decimal_u8(&mut s, x);
            s
        },
        VmFault::Unimplemented(op) => {
            let mut s = String::from_str("Unimplemented opcode: ");
            s.append(opcode_str(op));
            s
        },
    }
}

/// eBPF virtual machine for userspace execution
pub struct VM {
    registers: Vec<u64>,
    memory: Vec<u8>,
    programs: Vec<Program>,
}

impl VM {
    /// Eleven registers, and loaded programs with distinct names.
    pub closed spec fn wf(&self) -> bool {
        &&& self.registers@.len() == NUM_REGISTERS
        &&& names_distinct(self.programs@)
    }

    pub closed spec fn registers(&self) -> Seq<u64> {
        self.registers@
    }

    pub closed spec fn memory(&self) -> Seq<u8> {
        self.memory@
    }

    pub closed spec fn programs(&self) -> Seq<Program> {
        self.programs@
    }

    pub fn new(memory_size: usize) -> (r: Self)
        ensures
            r.wf(),
            r.registers() == Seq::new(11, |i: int| 0u64),
            r.memory() == Seq::new(memory_size as nat, |i: int| 0u8),
            r.programs() == Seq::<Program>::empty(),
    {
        let mut registers: Vec<u64> = Vec::new();
        let mut i: usize = 0;
        while i < NUM_REGISTERS
            invariant
                i <= NUM_REGISTERS,
                registers@ == Seq::new(i as nat, |k: int| 0u64),
            decreases NUM_REGISTERS - i,
        {
            registers.push(0);
            i = i + 1;
            proof {
                assert(registers@ =~= Seq::new(i as nat, |k: int| 0u64));
            }
        }
        let mut memory: Vec<u8> = Vec::new();
        let mut j: usize = 0;
        while j < memory_size
            invariant
                j <= memory_size,
                memory@ == Seq::new(j as nat, |k: int| 0u8),
            decreases memory_size - j,
        {
            memory.push(0);
            j = j + 1;
            proof {
                assert(memory@ =~= Seq::new(j as nat, |k: int| 0u8));
            }
        }
        let r = Self { registers, memory, programs: Vec::new() };
        r
    }

    /// Index of the loaded program called `name`.
    fn find(&self, name: &String) -> (r: Option<usize>)
        requires
            self.wf(),
        ensures
            match r {
                Some(i) => i < self.programs@.len() && program_index(self.programs@, name@) == Some(
                    i as int,
                ),
                None => program_index(self.programs@, name@) is None,
            },
    {
        let mut i: usize = 0;
        while i < self.programs.len()
            invariant
                i <= self.programs@.len(),
                names_distinct(self.programs@),
                forall|k: int| 0 <= k < i ==> (#[trigger] self.programs@[k]).name@ != name@,
            decreases self.programs@.len() - i,
        {
            if self.programs[i].name == *name {
                proof {
                    let c = choose|k: int|
                        0 <= k < self.programs@.len() && (#[trigger] self.programs@[k]).name@
                            == name@;
                    assert(self.programs@[i as int].name@ == name@);
                    if c != i {
                        assert(self.programs@[c].name@ != self.programs@[i as int].name@);
                    }
                }
                return Some(i);
            }
            i = i + 1;
        }
        None
    }

    /// Load a program under its name, replacing a program of the same name.
    pub fn load_program(&mut self, program: Program) -> (r: Result<(), String>)
        requires
            old(self).wf(),
        ensures
            final(self).wf(),
            final(self).registers() == old(self).registers(),
            final(self).memory() == old(self).memory(),
            program.instructions@.len() == 0 ==> (r matches Err(e) && e@ == empty_program_message()
                && final(self).programs() == old(self).programs()),
            program.instructions@.len() != 0 ==> (r is Ok && match program_index(
                old(self).programs(),
                program.name@,
            ) {
                Some(i) => final(self).programs() == old(self).programs().update(i, program),
                None => final(self).programs() == old(self).programs().push(program),
            }),
            r is Ok ==> lookup(final(self).programs(), program.name@) == Some(program.instructions@),
            forall|name: Seq<char>|
                name != program.name@ ==> #[trigger] lookup(final(self).programs(), name) == lookup(
                    old(self).programs(),
                    name,
                ),
    {
        if program.is_empty() {
            return Err(String::from_str("Cannot load empty program"));
        }
        match self.find(&program.name) {
            Some(i) => {
                let ghost name = program.name@;
                self.programs.set(i, program);
                proof {
                    assert forall|a: int, b: int|
                        0 <= a < self.programs@.len() && 0 <= b < self.programs@.len() && a != b
                            implies (#[trigger] self.programs@[a]).name@
                        != (#[trigger] self.programs@[b]).name@ by {
                        if a != i && b != i {
                            assert(old(self).programs@[a] == self.programs@[a]);
                            assert(old(self).programs@[b] == self.programs@[b]);
                        } else if a == i {
                            assert(old(self).programs@[b] == self.programs@[b]);
                            assert(old(self).programs@[i as int].name@ == name);
                        } else {
                            assert(old(self).programs@[a] == self.programs@[a]);
                            assert(old(self).programs@[i as int].name@ == name);
                        }
                    }
                    lemma_lookup_at(self.programs@, i as int);
                    assert forall|nm: Seq<char>| nm != name implies #[trigger] lookup(
                        self.programs@,
                        nm,
                    ) == lookup(old(self).programs@, nm) by {
                        lemma_lookup_same(self.programs@, old(self).programs@, nm);
                    }
                }
            },
            None => {
                let ghost name = program.name@;
                self.programs.push(program);
                proof {
                    assert forall|a: int, b: int|
                        0 <= a < self.programs@.len() && 0 <= b < self.programs@.len() && a != b
                            implies (#[trigger] self.programs@[a]).name@
                        != (#[trigger] self.programs@[b]).name@ by {
                        let n = old(self).programs@.len() as int;
                        if a != n && b != n {
                            assert(old(self).programs@[a] == self.programs@[a]);
                            assert(old(self).programs@[b] == self.programs@[b]);
                        } else if a == n {
                            assert(old(self).programs@[b] == self.programs@[b]);
                            assert(old(self).programs@[b].name@ != name);
                        } else {
                            assert(old(self).programs@[a] == self.programs@[a]);
                            assert(old(self).programs@[a].name@ != name);
                        }
                    }
                    let n = old(self).programs@.len() as int;
                    lemma_lookup_at(self.programs@, n);
                    assert forall|nm: Seq<char>| nm != name implies #[trigger] lookup(
                        self.programs@,
                        nm,
                    ) == lookup(old(self).programs@, nm) by {
                        assert forall|k: int|
                            0 <= k < self.programs@.len() && (#[trigger] self.programs@[k]).name@
                                == nm implies k < old(self).programs@.len() && old(
                            self,
                        ).programs@[k] == self.programs@[k] by {
                            if k == n {
                                assert(self.programs@[n].name@ == name);
                            }
                        }
                        lemma_lookup_same(self.programs@, old(self).programs@, nm);
                    }
                }
            },
        }
        Ok(())
    }

    /// Run a loaded program with r1 set to `ctx_addr` and r10 to `frame_top`.
    /// The registers keep what the run left in them.
    pub fn execute_at(&mut self, program_name: &str, ctx_addr: u64, frame_top: u64) -> (r: Result<
        u64,
        String,
    >)
        requires
            old(self).wf(),
            lookup(old(self).programs(), program_name@) matches Some(p) ==> p.len()
                <= MAX_PROGRAM_LEN && halts(
                p,
                start_regs(old(self).registers(), ctx_addr, frame_top),
            ),
        ensures
            final(self).wf(),
            final(self).memory() == old(self).memory(),
            final(self).programs() == old(self).programs(),
            match lookup(old(self).programs(), program_name@) {
                None => r matches Err(e) && e@ == not_found_message(program_name@)
                    && final(self).registers() == old(self).registers(),
                Some(p) => {
                    let (o, regs) = result(p, start_regs(old(self).registers(), ctx_addr, frame_top));
                    &&& final(self).registers() == regs
                    &&& match outcome_result(o) {
                        Ok(v) => r == Ok::<u64, String>(v),
                        Err(m) => r matches Err(e) && e@ == m,
                    }
                },
            },
    {
        let key = String::from_str(program_name);
        let idx = match self.find(&key) {
            Some(i) => i,
            None => {
                let mut msg = String::from_str("Program '");
                msg.append(program_name);
                msg.append("' not found");
                return Err(msg);
            },
        };
        let ghost instrs = self.programs@[idx as int].instructions@;
        let ghost regs0 = start_regs(self.registers@, ctx_addr, frame_top);
        self.registers.set(1, ctx_addr);
        self.registers.set(10, frame_top);
        proof {
            assert(self.registers@ =~= regs0);
        }
        let ghost f0: nat = choose|f: nat| #[trigger] run(instrs, regs0, 0, f) is Some;
        let ghost mut fuel: nat = f0;
        let mut pc: usize = 0;
        let n = self.programs[idx].instructions.len();
        while pc < n
            invariant
                self.wf(),
                idx < self.programs@.len(),
                instrs == self.programs@[idx as int].instructions@,
                n == instrs.len(),
                n <= MAX_PROGRAM_LEN,
                self.programs@ == old(self).programs@,
                self.memory@ == old(self).memory@,
                run(instrs, self.registers@, pc as int, fuel) == run(instrs, regs0, 0, f0),
                run(instrs, regs0, 0, f0) is Some,
                result(instrs, regs0) == run(instrs, regs0, 0, f0).unwrap(),
                regs0 == start_regs(old(self).registers@, ctx_addr, frame_top),
                lookup(old(self).programs@, program_name@) == Some(instrs),
            decreases fuel,
        {
            proof {
                assert(fuel > 0);
            }
            let inst = self.programs[idx].instructions[pc];
            let dst = inst.dst as usize;
            if dst >= NUM_REGISTERS {
                proof {
                    assert(step_stop(instrs, self.registers@, pc as int) == Some(
                        Outcome::Fault(VmFault::InvalidDst(inst.dst)),
                    ));
                    assert(run(instrs, self.registers@, pc as int, fuel) == Some(
                        (Outcome::Fault(VmFault::InvalidDst(inst.dst)), self.registers@),
                    ));
                }
                let e = fault_string(VmFault::InvalidDst(inst.dst));
                proof {
                }
                return Err(e);
            }
            let src_value: u64 = if inst.src == 0 {
                #[verifier::truncate]
                (inst.imm as u64)
            } else {
                let s = inst.src as usize;
                if s >= NUM_REGISTERS {
                    proof {
                        assert(step_stop(instrs, self.registers@, pc as int) == Some(
                            Outcome::Fault(VmFault::InvalidSrc(inst.src)),
                        ));
                        assert(run(instrs, self.registers@, pc as int, fuel) == Some(
                            (Outcome::Fault(VmFault::InvalidSrc(inst.src)), self.registers@),
                        ));
                    }
                    return Err(fault_string(VmFault::InvalidSrc(inst.src)));
                }
                self.registers[s]
            };
            let ghost regs = self.registers@;
            match inst.opcode {
                Opcode::Mov => {
                    self.registers.set(dst, src_value);
                },
                Opcode::Add => {
                    let v = self.registers[dst].wrapping_add(src_value);
                    self.registers.set(dst, v);
                },
                Opcode::Sub => {
                    let v = self.registers[dst].wrapping_sub(src_value);
                    self.registers.set(dst, v);
                },
                Opcode::Exit => {
                    return Ok(self.registers[0]);
                },
                Opcode::Jeq => {
                    if self.registers[dst] == src_value {
                        let target: i32 = pc as i32 + inst.offset as i32;
                        proof {
                            assert(step_regs(instrs, regs, pc as int) =~= regs);
                            assert(step_pc(instrs, regs, pc as int) == target as int);
                            assert(run(instrs, regs, target as int, (fuel - 1) as nat) is Some);
                            fuel = (fuel - 1) as nat;
                            assert(fuel > 0);
                        }
                        if target < 0 {
                            return Ok(self.registers[0]);
                        }
                        pc = target as usize;
                        continue ;
                    }
                },
                _ => {
                    return Err(fault_string(VmFault::Unimplemented(inst.opcode)));
                },
            }
            proof {
                assert(self.registers@ =~= step_regs(instrs, regs, pc as int));
                fuel = (fuel - 1) as nat;
            }
            pc = pc + 1;
        }
        Ok(self.registers[0])
    }

    /// Run a loaded program: r1 holds the address of `ctx` and r10 the
    /// address just past the machine's memory.
    pub fn execute(&mut self, program_name: &str, ctx: &[u8]) -> (r: Result<u64, String>)
        requires
            old(self).wf(),
            lookup(old(self).programs(), program_name@) matches Some(p) ==> p.len()
                <= MAX_PROGRAM_LEN && forall|a: u64, b: u64|
                #[trigger] halts(p, start_regs(old(self).registers(), a, b)),
        ensures
            final(self).wf(),
            final(self).memory() == old(self).memory(),
            final(self).programs() == old(self).programs(),
            match lookup(old(self).programs(), program_name@) {
                None => r matches Err(e) && e@ == not_found_message(program_name@)
                    && final(self).registers() == old(self).registers(),
                Some(p) => exists|a: u64, b: u64|
                    {
                        let (o, regs) = #[trigger] result(p, start_regs(old(self).registers(), a, b));
                        &&& final(self).registers() == regs
                        &&& match outcome_result(o) {
                            Ok(v) => r == Ok::<u64, String>(v),
                            Err(m) => r matches Err(e) && e@ == m,
                        }
                    },
            },
    {
        let ctx_addr = address_of(ctx);
        let base = address_of(self.memory.as_slice());
        let frame_top = base.wrapping_add(self.memory.len() as u64);
        proof {
            if let Some(p) = lookup(old(self).programs(), program_name@) {
                assert(halts(p, start_regs(old(self).registers(), ctx_addr, frame_top)));
            }
        }
        let r = self.execute_at(program_name, ctx_addr, frame_top);
        proof {
            if let Some(p) = lookup(old(self).programs(), program_name@) {
                let _ = result(p, start_regs(old(self).registers(), ctx_addr, frame_top));
            }
        }
        r
    }

    pub fn reset(&mut self)
        requires
            old(self).wf(),
        ensures
            final(self).wf(),
            final(self).registers() == Seq::new(11, |i: int| 0u64),
            final(self).memory() == Seq::new(old(self).memory().len(), |i: int| 0u8),
            final(self).programs() == old(self).programs(),
    {
        let mut i: usize = 0;
        while i < NUM_REGISTERS
            invariant
                i <= NUM_REGISTERS,
                self.registers@.len() == NUM_REGISTERS,
                self.programs@ == old(self).programs@,
                self.memory@ == old(self).memory@,
                forall|k: int| 0 <= k < i ==> self.registers@[k] == 0,
            decreases NUM_REGISTERS - i,
        {
            self.registers.set(i, 0);
            i = i + 1;
        }
        assert(self.registers@ =~= Seq::new(11, |k: int| 0u64));
        let n = self.memory.len();
        let mut j: usize = 0;
        while j < n
            invariant
                j <= n,
                n == self.memory@.len(),
                n == old(self).memory@.len(),
                self.registers@ == Seq::new(11, |k: int| 0u64),
                self.programs@ == old(self).programs@,
                forall|k: int| 0 <= k < j ==> self.memory@[k] == 0,
            decreases n - j,
        {
            self.memory.set(j, 0);
            j = j + 1;
        }
        assert(self.memory@ =~= Seq::new(n as nat, |k: int| 0u8));
    }
}

/// JIT compiler for eBPF programs; it emits a single `nop` (0x90) for any
/// program.
pub struct JitCompiler {
    target: String,
}

impl JitCompiler {
    pub closed spec fn target(&self) -> Seq<char> {
        self.target@
    }

    pub fn new(target: &str) -> (r: Self)
        ensures
            r.target() == target@,
    {
        Self { target: String::from_str(target) }
    }

    pub fn compile(&self, program: &Program) -> (r: Result<Vec<u8>, String>)
        ensures
            r matches Ok(code) && code@ == seq![0x90u8],
    {
        let mut code: Vec<u8> = Vec::new();
        code.push(0x90);
        Ok(code)
    }
}

} // verus!
