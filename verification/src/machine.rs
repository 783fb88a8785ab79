use vstd::prelude::*;

use crate::common::{lemma_reg_index_bound, reg_index, Register};
use crate::float8::{float8_add, float8_sum};
use crate::structured_instruction::{hi, lo, reg_of, spec_from_bytes, test_from_index, CmpjmpOperator, StructuredInstruction};
use crate::text::{dec_str, hex2, push_dec, push_hex2, push_str};

verus! {

broadcast use lemma_reg_index_bound;

/// What can go wrong when the machine runs.
#[derive(Debug, Clone, Copy, PartialEq, Eq)]
pub enum BrookshearMachineError {
    /// The two bytes at the address are no instruction.
    InvalidInstruction(u8, [u8; 2]),
    /// A memory access went past the end of memory.
    MemoryAccessOutOfBounds(u8),
    /// The program counter ran off the end of memory.
    EndOfMemory,
}

/// Where execution goes after an instruction.
#[derive(Debug, Clone, Copy, PartialEq, Eq, Structural)]
pub enum ControlFlow {
    /// On to the next instruction.
    Continue,
    /// To the given address.
    Jump(u8),
    /// Nowhere: the machine stops.
    Halt,
}

/// The one write an instruction makes, as it can be taken back.
#[derive(Debug, Clone, Copy, PartialEq, Eq, Structural)]
pub enum InverseSideEffect {
    MemoryWrite { address: u8, old_value: u8 },
    RegisterWrite { register: Register, old_value: u8 },
}

/// What it takes to undo one executed instruction.
#[derive(Debug, Clone, Copy, PartialEq, Eq)]
pub struct InverseStep {
    pub old_pc: u8,
    pub side_effect: Option<InverseSideEffect>,
}

/// The most recent steps that can be undone, at most `limit` of them.
#[derive(Debug, Clone, PartialEq, Eq)]
pub struct UndoHistory {
    limit: usize,
    entries: Vec<InverseStep>,
}

/// The entries after recording one more, dropping the oldest when full; a
/// history whose limit is zero keeps nothing.
pub open spec fn push_bounded(entries: Seq<InverseStep>, limit: nat, e: InverseStep) -> Seq<InverseStep> {
    if limit == 0 {
        entries
    } else if entries.len() == limit {
        entries.drop_first().push(e)
    } else {
        entries.push(e)
    }
}

/// The most recent `limit` entries.
pub open spec fn keep_last(entries: Seq<InverseStep>, limit: nat) -> Seq<InverseStep> {
    if entries.len() > limit {
        entries.subrange(entries.len() - limit, entries.len() as int)
    } else {
        entries
    }
}

impl UndoHistory {
    /// The recorded steps, oldest first.
    pub closed spec fn entries(&self) -> Seq<InverseStep> {
        self.entries@
    }

    /// The number of steps kept at most.
    pub closed spec fn spec_limit(&self) -> nat {
        self.limit as nat
    }

    /// A history never holds more than its limit.
    pub open spec fn wf(&self) -> bool {
        self.entries().len() <= self.spec_limit()
    }

    /// An empty history that keeps at most `limit` steps.
    pub fn new(limit: usize) -> (h: Self)
        ensures
            h.wf(),
            h.entries() == Seq::<InverseStep>::empty(),
            h.spec_limit() == limit,
    {
        UndoHistory { limit, entries: Vec::new() }
    }

    /// Records a step, dropping the oldest one when the history is full; with
    /// a limit of zero nothing is kept.
    pub fn push(&mut self, entry: InverseStep)
        ensures
            final(self).entries() == push_bounded(old(self).entries(), old(self).spec_limit(), entry),
            final(self).spec_limit() == old(self).spec_limit(),
    {
        if self.limit == 0 {
            return;
        }
        if self.entries.len() == self.limit {
            self.entries.remove(0);
        }
        self.entries.push(entry);
        proof {
            if old(self).entries@.len() == old(self).limit {
                assert(self.entries@ =~= old(self).entries@.drop_first().push(entry));
            }
        }
    }

    /// Takes the most recent step out, if there is one.
    pub fn pop(&mut self) -> (r: Option<InverseStep>)
        ensures
            old(self).entries().len() == 0 ==> r is None && final(self).entries() == old(self).entries(),
            old(self).entries().len() > 0 ==> r == Some(old(self).entries().last())
                && final(self).entries() == old(self).entries().drop_last(),
            final(self).spec_limit() == old(self).spec_limit(),
    {
        self.entries.pop()
    }

    /// Forgets every step.
    pub fn clear(&mut self)
        ensures
            final(self).entries() == Seq::<InverseStep>::empty(),
            final(self).spec_limit() == old(self).spec_limit(),
    {
        self.entries.clear();
    }

    /// Changes the limit, dropping the oldest steps that no longer fit.
    pub fn set_limit(&mut self, new_limit: usize)
        ensures
            final(self).spec_limit() == new_limit,
            final(self).entries() == keep_last(old(self).entries(), new_limit as nat),
            final(self).wf(),
    {
        self.limit = new_limit;
        while self.entries.len() > self.limit
            invariant
                self.limit == new_limit,
                keep_last(self.entries@, new_limit as nat) == keep_last(old(self).entries@, new_limit as nat),
            decreases self.entries.len(),
        {
            let ghost before = self.entries@;
            self.entries.remove(0);
            proof {
                assert(self.entries@ =~= before.drop_first());
                assert(keep_last(self.entries@, new_limit as nat) =~= keep_last(before, new_limit as nat));
            }
        }
        proof {
            assert(keep_last(self.entries@, new_limit as nat) == self.entries@);
        }
    }

    /// The number of steps kept at most.
    pub fn limit(&self) -> (l: usize)
        ensures
            l == self.spec_limit(),
    {
        self.limit
    }
}

/// The machine as a mathematical value.
#[verifier::ext_equal]
pub struct MachineState {
    pub pc: u8,
    pub registers: Seq<u8>,
    pub memory: Seq<u8>,
    pub history: Seq<InverseStep>,
    pub limit: nat,
}

/// The extended Brookshear machine: 256 bytes of memory, sixteen registers,
/// a program counter, and a bounded history of steps that can be undone.
#[derive(Debug, PartialEq, Eq)]
pub struct BrookshearMachine {
    pc: u8,
    registers: [u8; 16],
    memory: [u8; 256],
    undo_history: UndoHistory,
}

impl View for BrookshearMachine {
    type V = MachineState;

    closed spec fn view(&self) -> MachineState {
        MachineState {
            pc: self.pc,
            registers: self.registers@,
            memory: self.memory@,
            history: self.undo_history.entries(),
            limit: self.undo_history.spec_limit(),
        }
    }
}

/// A machine state of the right shape whose history is within its limit.
pub open spec fn state_wf(s: MachineState) -> bool {
    &&& s.registers.len() == 16
    &&& s.memory.len() == 256
    &&& s.history.len() <= s.limit
}

/// The value of a register.
pub open spec fn reg(s: MachineState, r: Register) -> u8 {
    s.registers[reg_index(r) as int]
}

/// The state with a register set.
pub open spec fn set_reg(s: MachineState, r: Register, v: u8) -> MachineState {
    MachineState { registers: s.registers.update(reg_index(r) as int, v), ..s }
}

/// The state with a memory cell set.
pub open spec fn set_mem(s: MachineState, a: u8, v: u8) -> MachineState {
    MachineState { memory: s.memory.update(a as int, v), ..s }
}

/// The state with the program counter set.
pub open spec fn set_pc_to(s: MachineState, pc: u8) -> MachineState {
    MachineState { pc, ..s }
}

/// A byte rotated right by `n` bits.
pub open spec fn spec_rotr(x: u8, n: u8) -> u8 {
    if n % 8 == 0 {
        x
    } else {
        ((x >> (n % 8)) | (x << ((8 - n % 8) as u8))) as u8
    }
}

/// Whether `a` passes the test against `b`.
pub open spec fn spec_test(op: CmpjmpOperator, a: u8, b: u8) -> bool {
    match op {
        CmpjmpOperator::Eq => a == b,
        CmpjmpOperator::Ne => a != b,
        CmpjmpOperator::Ge => a >= b,
        CmpjmpOperator::Le => a <= b,
        CmpjmpOperator::Gt => a > b,
        CmpjmpOperator::Lt => a < b,
    }
}

/// The write an instruction is about to make, with the value it will overwrite.
pub open spec fn spec_inverse_side_effect(s: MachineState, i: StructuredInstruction) -> Option<InverseSideEffect> {
    match i {
        StructuredInstruction::MovMemToReg(_, r)
        | StructuredInstruction::MovImmToReg(_, r)
        | StructuredInstruction::MovRegToReg { src: _, dst: r }
        | StructuredInstruction::MovIndirectToReg { dst: r, src: _ }
        | StructuredInstruction::AddRegToRegInteger(r, _, _)
        | StructuredInstruction::AddRegToRegFloat(r, _, _)
        | StructuredInstruction::OrRegToReg(r, _, _)
        | StructuredInstruction::AndRegToReg(r, _, _)
        | StructuredInstruction::XorRegToReg(r, _, _)
        | StructuredInstruction::RotRegRight(r, _) =>
            Some(InverseSideEffect::RegisterWrite { register: r, old_value: reg(s, r) }),
        StructuredInstruction::MovRegToMem(_, addr) =>
            Some(InverseSideEffect::MemoryWrite { address: addr, old_value: s.memory[addr as int] }),
        StructuredInstruction::MovRegToIndirect { src: _, dst } =>
            Some(InverseSideEffect::MemoryWrite {
                address: reg(s, dst),
                old_value: s.memory[reg(s, dst) as int],
            }),
        _ => None,
    }
}

/// The state after the step about to execute `i` is recorded for undoing.
pub open spec fn spec_record(s: MachineState, i: StructuredInstruction) -> MachineState {
    if i == StructuredInstruction::Halt {
        s
    } else {
        MachineState {
            history: push_bounded(s.history, s.limit, InverseStep { old_pc: s.pc, side_effect: spec_inverse_side_effect(s, i) }),
            ..s
        }
    }
}

/// Executing `i` panics: it adds two floats whose sum has no encoding.
pub open spec fn execute_panics(s: MachineState, i: StructuredInstruction) -> bool {
    match i {
        StructuredInstruction::AddRegToRegFloat(_, a, b) => float8_sum(reg(s, a), reg(s, b)) is None,
        _ => false,
    }
}

/// The effect of executing `i` (the program counter is left alone), and where
/// control goes next.
pub open spec fn spec_execute(s0: MachineState, i: StructuredInstruction) -> (MachineState, ControlFlow) {
    spec_apply(spec_record(s0, i), i)
}

/// No operation, or a move between registers and memory.
pub open spec fn is_move(i: StructuredInstruction) -> bool {
    ||| i is Nop
    ||| i is MovMemToReg
    ||| i is MovImmToReg
    ||| i is MovRegToMem
    ||| i is MovRegToReg
    ||| i is MovIndirectToReg
    ||| i is MovRegToIndirect
}

/// An arithmetic, logic or rotate instruction.
pub open spec fn is_alu(i: StructuredInstruction) -> bool {
    ||| i is AddRegToRegInteger
    ||| i is AddRegToRegFloat
    ||| i is OrRegToReg
    ||| i is AndRegToReg
    ||| i is XorRegToReg
    ||| i is RotRegRight
}

fn is_move_exec(i: StructuredInstruction) -> (r: bool)
    ensures
        r == is_move(i),
{
    match i {
        StructuredInstruction::Nop | StructuredInstruction::MovMemToReg(..) | StructuredInstruction::MovImmToReg(..)
        | StructuredInstruction::MovRegToMem(..) | StructuredInstruction::MovRegToReg { .. }
        | StructuredInstruction::MovIndirectToReg { .. } | StructuredInstruction::MovRegToIndirect { .. } => true,
        _ => false,
    }
}

fn is_alu_exec(i: StructuredInstruction) -> (r: bool)
    ensures
        r == is_alu(i),
{
    match i {
        StructuredInstruction::AddRegToRegInteger(..) | StructuredInstruction::AddRegToRegFloat(..)
        | StructuredInstruction::OrRegToReg(..) | StructuredInstruction::AndRegToReg(..)
        | StructuredInstruction::XorRegToReg(..) | StructuredInstruction::RotRegRight(..) => true,
        _ => false,
    }
}

/// The effect of executing `i` once it has been recorded.
pub open spec fn spec_apply(s: MachineState, i: StructuredInstruction) -> (MachineState, ControlFlow) {
    match i {
        StructuredInstruction::Nop => (s, ControlFlow::Continue),
        StructuredInstruction::MovMemToReg(addr, r) => (set_reg(s, r, s.memory[addr as int]), ControlFlow::Continue),
        StructuredInstruction::MovImmToReg(val, r) => (set_reg(s, r, val), ControlFlow::Continue),
        StructuredInstruction::MovRegToMem(r, addr) => (set_mem(s, addr, reg(s, r)), ControlFlow::Continue),
        StructuredInstruction::MovRegToReg { src, dst } => (set_reg(s, dst, reg(s, src)), ControlFlow::Continue),
        StructuredInstruction::MovIndirectToReg { dst, src } =>
            (set_reg(s, dst, s.memory[reg(s, src) as int]), ControlFlow::Continue),
        StructuredInstruction::MovRegToIndirect { src, dst } =>
            (set_mem(s, reg(s, dst), reg(s, src)), ControlFlow::Continue),
        StructuredInstruction::AddRegToRegInteger(d, a, b) =>
            (set_reg(s, d, ((reg(s, a) + reg(s, b)) % 256) as u8), ControlFlow::Continue),
        StructuredInstruction::AddRegToRegFloat(d, a, b) =>
            (set_reg(s, d, float8_sum(reg(s, a), reg(s, b)).unwrap()), ControlFlow::Continue),
        StructuredInstruction::OrRegToReg(d, a, b) => (set_reg(s, d, reg(s, a) | reg(s, b)), ControlFlow::Continue),
        StructuredInstruction::AndRegToReg(d, a, b) => (set_reg(s, d, reg(s, a) & reg(s, b)), ControlFlow::Continue),
        StructuredInstruction::XorRegToReg(d, a, b) => (set_reg(s, d, reg(s, a) ^ reg(s, b)), ControlFlow::Continue),
        StructuredInstruction::RotRegRight(d, amount) => (set_reg(s, d, spec_rotr(reg(s, d), amount)), ControlFlow::Continue),
        StructuredInstruction::JmpIfEqual(r, addr) =>
            (s, if reg(s, r) == reg(s, Register::R0) { ControlFlow::Jump(addr) } else { ControlFlow::Continue }),
        StructuredInstruction::Halt => (s, ControlFlow::Halt),
        StructuredInstruction::JumpWithComparison(op, loc, c) =>
            (s, if spec_test(op, reg(s, c), reg(s, Register::R0)) {
                ControlFlow::Jump(reg(s, loc))
            } else {
                ControlFlow::Continue
            }),
    }
}

/// The instruction at an address, or why there is none.
pub open spec fn spec_fetch(s: MachineState, addr: u8) -> Result<StructuredInstruction, BrookshearMachineError> {
    if addr >= 255 {
        Err(BrookshearMachineError::EndOfMemory)
    } else {
        match spec_from_bytes(s.memory[addr as int], s.memory[addr + 1]) {
            Some(i) => Ok(i),
            None => Err(BrookshearMachineError::InvalidInstruction(addr, [s.memory[addr as int], s.memory[addr + 1]])),
        }
    }
}

/// A step of the machine panics.
pub open spec fn step_panics(s: MachineState) -> bool {
    spec_fetch(s, s.pc) matches Ok(i) && execute_panics(s, i)
}

/// One step: fetch the instruction at the program counter, execute it, and
/// advance the program counter by two, jump, or halt. The result is `true`
/// when the machine may go on, `false` when it halted.
pub open spec fn spec_step(s: MachineState) -> (MachineState, Result<bool, BrookshearMachineError>) {
    match spec_fetch(s, s.pc) {
        Err(e) => (s, Err(e)),
        Ok(i) => {
            let (s1, flow) = spec_execute(s, i);
            match flow {
                ControlFlow::Continue => if s.pc + 2 > 255 {
                    (s1, Err(BrookshearMachineError::EndOfMemory))
                } else {
                    (set_pc_to(s1, (s.pc + 2) as u8), Ok(true))
                },
                ControlFlow::Jump(t) => (set_pc_to(s1, t), Ok(true)),
                ControlFlow::Halt => (s1, Ok(false)),
            }
        },
    }
}

/// Whether `a` stands to `b` as the comparison numbered `n` in the encoding
/// of a comparing jump asks: 0 equal, 1 different, 2 at least, 3 at most,
/// 4 above, 5 below, as unsigned bytes.
pub open spec fn comparison_numbered(n: int, a: u8, b: u8) -> bool {
    if n == 0 {
        a == b
    } else if n == 1 {
        a != b
    } else if n == 2 {
        a >= b
    } else if n == 3 {
        a <= b
    } else if n == 4 {
        a > b
    } else {
        a < b
    }
}

/// A comparing jump is taken on the comparison its encoding selects: with
/// the bytes `F c` and `n t` at the program counter (`n` from 0 to 5), a
/// step jumps to the address held in register `t` exactly when register `c`
/// stands to `R0` as comparison `n` asks, and else goes on with the next
/// instruction. Registers and memory stay as they were.
pub proof fn lemma_comparing_jump_step(s: MachineState, c: int, n: int, t: int)
    requires
        state_wf(s),
        s.pc < 255,
        0 <= c < 16,
        0 <= n < 6,
        0 <= t < 16,
        s.memory[s.pc as int] == 0xF0 + c,
        s.memory[s.pc + 1] == n * 16 + t,
    ensures
        ({
            let taken = comparison_numbered(n, s.registers[c], s.registers[0]);
            let (s2, r) = spec_step(s);
            &&& s2.registers == s.registers
            &&& s2.memory == s.memory
            &&& taken ==> r == Ok::<bool, BrookshearMachineError>(true) && s2.pc == s.registers[t]
            &&& !taken && s.pc + 2 <= 255 ==> r == Ok::<bool, BrookshearMachineError>(true) && s2.pc == s.pc + 2
            &&& !taken && s.pc + 2 > 255 ==> r == Err::<bool, BrookshearMachineError>(BrookshearMachineError::EndOfMemory)
        }),
{
    let b0 = s.memory[s.pc as int];
    let b1 = s.memory[s.pc + 1];
    assert(hi(b0) == 15 && lo(b0) == c);
    assert(hi(b1) == n && lo(b1) == t);
    let rc = reg_of(c);
    let rt = reg_of(t);
    crate::common::lemma_reg_index_roundtrip(Register::R0, c);
    crate::common::lemma_reg_index_roundtrip(Register::R0, t);
    crate::common::lemma_reg_index_roundtrip(rc, c);
    crate::common::lemma_reg_index_roundtrip(rt, t);
    reveal(reg_index);
    assert(reg(s, rc) == s.registers[c]);
    assert(reg(s, rt) == s.registers[t]);
    assert(reg(s, Register::R0) == s.registers[0]);
    let op = test_from_index(n).unwrap();
    assert(spec_fetch(s, s.pc) == Ok::<StructuredInstruction, BrookshearMachineError>(StructuredInstruction::JumpWithComparison(op, rt, rc)));
    assert(spec_test(op, s.registers[c], s.registers[0]) == comparison_numbered(n, s.registers[c], s.registers[0]));
}

/// What a step does with the bytes `o x` and `y z` (one hexadecimal digit
/// each) at the program counter, as the machine's instruction table says:
/// 1 loads Rx from the cell yz, 2 loads Rx with yz, 3 stores Rx into the
/// cell yz, 4 copies Ry into Rz, 5 puts Ry + Rz (modulo 256) into Rx,
/// 7, 8 and 9 put Ry OR, AND and XOR Rz into Rx, B jumps to yz when Rx
/// equals R0, D loads Ry from the cell that Rz points to, E stores Ry into
/// the cell that Rz points to; the bytes 0F FF do nothing and C0 00 halt.
/// After any of them but a jump taken and a halt, the program counter moves
/// on by two.
pub proof fn lemma_instruction_effects(s: MachineState, o: int, x: int, y: int, z: int)
    requires
        state_wf(s),
        s.pc + 2 <= 255,
        0 <= o < 16,
        0 <= x < 16,
        0 <= y < 16,
        0 <= z < 16,
        s.memory[s.pc as int] == o * 16 + x,
        s.memory[s.pc + 1] == y * 16 + z,
    ensures
        ({
            let (s2, r) = spec_step(s);
            let yz = (y * 16 + z) as u8;
            let rx = s.registers[x];
            let ry = s.registers[y];
            let rz = s.registers[z];
            let next = r == Ok::<bool, BrookshearMachineError>(true) && s2.pc == s.pc + 2;
            &&& o == 1 ==> next && s2.memory == s.memory && s2.registers == s.registers.update(x, s.memory[yz as int])
            &&& o == 2 ==> next && s2.memory == s.memory && s2.registers == s.registers.update(x, yz)
            &&& o == 3 ==> next && s2.memory == s.memory.update(yz as int, rx) && s2.registers == s.registers
            &&& o == 4 ==> next && s2.memory == s.memory && s2.registers == s.registers.update(z, ry)
            &&& o == 5 ==> next && s2.memory == s.memory && s2.registers == s.registers.update(x, ((ry + rz) % 256) as u8)
            &&& o == 7 ==> next && s2.memory == s.memory && s2.registers == s.registers.update(x, ry | rz)
            &&& o == 8 ==> next && s2.memory == s.memory && s2.registers == s.registers.update(x, ry & rz)
            &&& o == 9 ==> next && s2.memory == s.memory && s2.registers == s.registers.update(x, ry ^ rz)
            &&& o == 0xB ==> r == Ok::<bool, BrookshearMachineError>(true) && s2.memory == s.memory
                && s2.registers == s.registers && s2.pc == (if rx == s.registers[0] { yz as int } else { s.pc + 2 })
            &&& o == 0xD && x == 0 ==> next && s2.memory == s.memory
                && s2.registers == s.registers.update(y, s.memory[rz as int])
            &&& o == 0xE && x == 0 ==> next && s2.memory == s.memory.update(rz as int, ry) && s2.registers == s.registers
            &&& o == 0 && x == 0xF && y == 0xF && z == 0xF ==> next && s2.memory == s.memory && s2.registers == s.registers
            &&& o == 0xC && x == 0 && y == 0 && z == 0 ==> r == Ok::<bool, BrookshearMachineError>(false) && s2.memory == s.memory
                && s2.registers == s.registers && s2.pc == s.pc
        }),
{
    let b0 = s.memory[s.pc as int];
    let b1 = s.memory[s.pc + 1];
    assert(hi(b0) == o && lo(b0) == x);
    assert(hi(b1) == y && lo(b1) == z);
    crate::common::lemma_reg_index_roundtrip(Register::R0, x);
    crate::common::lemma_reg_index_roundtrip(Register::R0, y);
    crate::common::lemma_reg_index_roundtrip(Register::R0, z);
    crate::common::lemma_reg_index_roundtrip(reg_of(x), x);
    crate::common::lemma_reg_index_roundtrip(reg_of(y), y);
    crate::common::lemma_reg_index_roundtrip(reg_of(z), z);
    reveal(reg_index);
    assert(reg(s, reg_of(x)) == s.registers[x]);
    assert(reg(s, reg_of(y)) == s.registers[y]);
    assert(reg(s, reg_of(z)) == s.registers[z]);
    assert(reg(s, Register::R0) == s.registers[0]);
    assert((b1 % 16) as int == z);
}

/// Undoing the most recent recorded step: the program counter and the one
/// overwritten location get their old values back. `false` when there is
/// nothing to undo.
pub open spec fn spec_undo(s: MachineState) -> (MachineState, bool) {
    if s.history.len() == 0 {
        (s, false)
    } else {
        let e = s.history.last();
        let s1 = MachineState { history: s.history.drop_last(), pc: e.old_pc, ..s };
        (match e.side_effect {
            Some(InverseSideEffect::MemoryWrite { address, old_value }) => set_mem(s1, address, old_value),
            Some(InverseSideEffect::RegisterWrite { register, old_value }) => set_reg(s1, register, old_value),
            None => s1,
        }, true)
    }
}

/// A read of memory gives back what the last write to that address wrote,
/// and a write leaves every other address as it was; likewise for registers.
pub proof fn lemma_read_after_write(s: MachineState, a: u8, v: u8, b: u8, r: Register, w: u8, q: Register)
    requires
        state_wf(s),
    ensures
        set_mem(s, a, v).memory[b as int] == (if a == b { v } else { s.memory[b as int] }),
        reg(set_reg(s, r, w), q) == (if r == q { w } else { reg(s, q) }),
        set_mem(s, a, v).registers == s.registers,
        set_reg(s, r, w).memory == s.memory,
{
    crate::common::lemma_reg_index_roundtrip(r, 0);
    crate::common::lemma_reg_index_roundtrip(q, 0);
    if reg_index(r) == reg_index(q) {
        crate::common::lemma_reg_index_roundtrip(r, reg_index(q) as int);
    }
}

/// The program counter moves on by two after each instruction that neither
/// jumps nor halts; a halt changes nothing and stops the machine.
pub proof fn lemma_step_pc(s: MachineState)
    requires
        spec_fetch(s, s.pc) is Ok,
        !step_panics(s),
    ensures
        ({
            let i = spec_fetch(s, s.pc)->Ok_0;
            let (s2, r) = spec_step(s);
            &&& (r == Ok::<bool, BrookshearMachineError>(true) && !(i is JmpIfEqual) && !(i is JumpWithComparison))
                ==> s2.pc == s.pc + 2
            &&& i == StructuredInstruction::Halt ==> r == Ok::<bool, BrookshearMachineError>(false) && s2 == s
            &&& i != StructuredInstruction::Halt ==> r != Ok::<bool, BrookshearMachineError>(false)
        }),
{
}

/// With room for history, undoing right after a step that executed an
/// instruction (anything but a halt) gives back the program counter, the registers and the memory the
/// machine had before the step; the history loses the step again, and its
/// oldest entry if recording the step had pushed that one out.
pub proof fn lemma_undo_reverts_step(s: MachineState)
    requires
        state_wf(s),
        s.limit > 0,
        spec_fetch(s, s.pc) is Ok,
        spec_fetch(s, s.pc)->Ok_0 != StructuredInstruction::Halt,
        !step_panics(s),
    ensures
        spec_undo(spec_step(s).0).1,
        spec_undo(spec_step(s).0).0.pc == s.pc,
        spec_undo(spec_step(s).0).0.registers == s.registers,
        spec_undo(spec_step(s).0).0.memory == s.memory,
        spec_undo(spec_step(s).0).0.history == (if s.history.len() == s.limit {
            s.history.drop_first()
        } else {
            s.history
        }),
{
    let i = spec_fetch(s, s.pc)->Ok_0;
    let s2 = spec_step(s).0;
    let e = InverseStep { old_pc: s.pc, side_effect: spec_inverse_side_effect(s, i) };
    let h1 = push_bounded(s.history, s.limit, e);
    assert(s2.history == h1);
    assert(h1.last() == e);
    assert(h1.drop_last() =~= (if s.history.len() == s.limit { s.history.drop_first() } else { s.history }));
    let s3 = spec_undo(s2).0;
    match i {
        StructuredInstruction::MovRegToMem(r, addr) => {
            assert(s3.memory =~= s.memory);
            assert(s3.registers =~= s.registers);
        },
        StructuredInstruction::MovRegToIndirect { src, dst } => {
            assert(s3.memory =~= s.memory);
            assert(s3.registers =~= s.registers);
        },
        StructuredInstruction::Nop
        | StructuredInstruction::JmpIfEqual(..)
        | StructuredInstruction::JumpWithComparison(..)
        | StructuredInstruction::Halt => {
            assert(s3.memory =~= s.memory);
            assert(s3.registers =~= s.registers);
        },
        _ => {
            assert(s3.memory =~= s.memory);
            assert(s3.registers =~= s.registers);
        },
    }
}

/// The state after `k` steps from `s`.
pub open spec fn run_steps(s: MachineState, k: nat) -> MachineState
    decreases k,
{
    if k == 0 {
        s
    } else {
        spec_step(run_steps(s, (k - 1) as nat)).0
    }
}

/// The state after undoing `j` times from `s`.
pub open spec fn undo_steps(s: MachineState, j: nat) -> MachineState
    decreases j,
{
    if j == 0 {
        s
    } else {
        spec_undo(undo_steps(s, (j - 1) as nat)).0
    }
}

/// The step from `s` executes an instruction other than a halt, and does
/// not panic.
pub open spec fn step_executes(s: MachineState) -> bool {
    &&& spec_fetch(s, s.pc) is Ok
    &&& spec_fetch(s, s.pc)->Ok_0 != StructuredInstruction::Halt
    &&& !step_panics(s)
}

/// `a` has the program counter, registers, memory and history limit of
/// `b`, and a history that is a tail of `b`'s.
pub open spec fn agrees_back(a: MachineState, b: MachineState) -> bool {
    &&& a.pc == b.pc
    &&& a.registers == b.registers
    &&& a.memory == b.memory
    &&& a.limit == b.limit
    &&& a.history.len() <= b.history.len()
    &&& a.history == b.history.subrange(b.history.len() - a.history.len(), b.history.len() as int)
}

/// A step that executes an instruction keeps the state well formed and its
/// history limit, and records one more entry, dropping the oldest when the
/// history is full.
proof fn lemma_step_records(s: MachineState)
    requires
        state_wf(s),
        s.limit > 0,
        step_executes(s),
    ensures
        state_wf(spec_step(s).0),
        spec_step(s).0.limit == s.limit,
        spec_step(s).0.history.len() == (if s.history.len() == s.limit { s.limit as int } else { s.history.len() + 1int }),
        agrees_back(spec_undo(spec_step(s).0).0, s),
{
    lemma_undo_reverts_step(s);
    let i = spec_fetch(s, s.pc)->Ok_0;
    let s2 = spec_step(s).0;
    let e = InverseStep { old_pc: s.pc, side_effect: spec_inverse_side_effect(s, i) };
    assert(s2.history == push_bounded(s.history, s.limit, e));
    let s3 = spec_undo(s2).0;
    assert(s3.history == s2.history.drop_last());
    if s.history.len() == s.limit {
        assert(s3.history =~= s.history.subrange(1, s.history.len() as int));
    } else {
        assert(s3.history =~= s.history.subrange(0, s.history.len() as int));
    }
}

/// Undoing from two states that agree, the first with a history to undo,
/// gives states that agree.
proof fn lemma_undo_agrees(a: MachineState, b: MachineState)
    requires
        agrees_back(a, b),
        a.history.len() >= 1,
    ensures
        agrees_back(spec_undo(a).0, spec_undo(b).0),
        spec_undo(a).0.history.len() == a.history.len() - 1,
{
    assert(a.history.last() == b.history.last());
    assert(spec_undo(a).0.history =~= spec_undo(b).0.history.subrange(
        spec_undo(b).0.history.len() - spec_undo(a).0.history.len(),
        spec_undo(b).0.history.len() as int,
    ));
}

proof fn lemma_agrees_trans(a: MachineState, b: MachineState, c: MachineState)
    requires
        agrees_back(a, b),
        agrees_back(b, c),
    ensures
        agrees_back(a, c),
{
    assert(a.history =~= c.history.subrange(c.history.len() - a.history.len(), c.history.len() as int));
}

/// The states along `i` steps from `s` are well formed, keep the history
/// limit, and have recorded every step up to the limit.
proof fn lemma_run_steps(s: MachineState, k: nat, i: nat)
    requires
        state_wf(s),
        s.limit > 0,
        i <= k,
        forall|m: nat| m < k ==> step_executes(#[trigger] run_steps(s, m)),
    ensures
        state_wf(run_steps(s, i)),
        run_steps(s, i).limit == s.limit,
        run_steps(s, i).history.len() >= (if i <= s.limit { i as int } else { s.limit as int }),
    decreases i,
{
    if i > 0 {
        lemma_run_steps(s, k, (i - 1) as nat);
        let t = run_steps(s, (i - 1) as nat);
        assert(step_executes(t));
        lemma_step_records(t);
    }
}

/// Undoing `j` of `k` steps, with `j <= k` and `k` within the history
/// limit, gives back the program counter, registers and memory of the state
/// `j` steps before the end: undos retrace the steps in reverse order.
pub proof fn lemma_undo_reverts_steps(s: MachineState, k: nat, j: nat)
    requires
        state_wf(s),
        forall|m: nat| m < k ==> step_executes(#[trigger] run_steps(s, m)),
        j <= k,
        k <= s.limit,
    ensures
        undo_steps(run_steps(s, k), j).pc == run_steps(s, (k - j) as nat).pc,
        undo_steps(run_steps(s, k), j).registers == run_steps(s, (k - j) as nat).registers,
        undo_steps(run_steps(s, k), j).memory == run_steps(s, (k - j) as nat).memory,
{
    lemma_undo_steps_agree(s, k, j);
}

proof fn lemma_undo_steps_agree(s: MachineState, k: nat, j: nat)
    requires
        state_wf(s),
        forall|m: nat| m < k ==> step_executes(#[trigger] run_steps(s, m)),
        j <= k,
        k <= s.limit,
    ensures
        agrees_back(undo_steps(run_steps(s, k), j), run_steps(s, (k - j) as nat)),
        undo_steps(run_steps(s, k), j).history.len() == run_steps(s, k).history.len() - j,
    decreases j,
{
    let tk = run_steps(s, k);
    if j == 0 {
        assert(tk.history =~= tk.history.subrange(0, tk.history.len() as int));
    } else {
        lemma_undo_steps_agree(s, k, (j - 1) as nat);
        lemma_run_steps(s, k, k);
        let a = undo_steps(tk, (j - 1) as nat);
        let b = run_steps(s, (k - j + 1) as nat);
        let c = run_steps(s, (k - j) as nat);
        lemma_undo_agrees(a, b);
        lemma_run_steps(s, k, (k - j) as nat);
        assert(step_executes(c));
        lemma_step_records(c);
        assert(b == spec_step(c).0);
        lemma_agrees_trans(spec_undo(a).0, spec_undo(b).0, c);
    }
}

/// Rotates a byte right by `n` bits.
fn rotr(x: u8, n: u8) -> (r: u8)
    ensures
        r == spec_rotr(x, n),
{
    let k = n % 8;
    if k == 0 {
        x
    } else {
        (x >> k) | (x << (8 - k))
    }
}

fn test(op: CmpjmpOperator, a: u8, b: u8) -> (r: bool)
    ensures
        r == spec_test(op, a, b),
{
    match op {
        CmpjmpOperator::Eq => a == b,
        CmpjmpOperator::Ne => a != b,
        CmpjmpOperator::Ge => a >= b,
        CmpjmpOperator::Le => a <= b,
        CmpjmpOperator::Gt => a > b,
        CmpjmpOperator::Lt => a < b,
    }
}

impl BrookshearMachine {
    pub const REGISTER_COUNT: usize = 16;

    pub const MEMORY_SIZE: usize = 256;

    /// The machine's history is within its limit.
    pub open spec fn wf(&self) -> bool {
        state_wf(self@)
    }

    /// The machine has sixteen registers and 256 bytes of memory.
    pub proof fn lemma_shape(&self)
        ensures
            self@.registers.len() == 16,
            self@.memory.len() == 256,
    {
    }

    /// A machine with zeroed memory and registers whose history keeps at most
    /// `history_limit` steps.
    pub fn new_with_history_limit(history_limit: usize) -> (m: Self)
        ensures
            m.wf(),
            m@.pc == 0,
            m@.registers == Seq::new(16, |i: int| 0u8),
            m@.memory == Seq::new(256, |i: int| 0u8),
            m@.history == Seq::<InverseStep>::empty(),
            m@.limit == history_limit,
    {
        let m = BrookshearMachine {
            memory: [0; 256],
            registers: [0; 16],
            pc: 0,
            undo_history: UndoHistory::new(history_limit),
        };
        assert(m@.registers =~= Seq::new(16, |i: int| 0u8));
        assert(m@.memory =~= Seq::new(256, |i: int| 0u8));
        m
    }

    /// Changes how many steps the history keeps, dropping the oldest ones that
    /// no longer fit.
    pub fn set_history_limit(&mut self, new_limit: usize)
        ensures
            final(self).wf(),
            final(self)@ == (MachineState {
                limit: new_limit as nat,
                history: keep_last(old(self)@.history, new_limit as nat),
                ..old(self)@
            }),
    {
        self.undo_history.set_limit(new_limit);
    }

    /// How many steps the history keeps at most.
    pub fn history_limit(&self) -> (l: usize)
        ensures
            l == self@.limit,
    {
        self.undo_history.limit()
    }

    /// The write that executing `instruction` would make, with the value it
    /// would overwrite.
    pub fn get_inverse_side_effect(&self, instruction: &StructuredInstruction) -> (r: Option<InverseSideEffect>)
        ensures
            r == spec_inverse_side_effect(self@, *instruction),
    {
        match *instruction {
            StructuredInstruction::MovMemToReg(_, r)
            | StructuredInstruction::MovImmToReg(_, r)
            | StructuredInstruction::MovRegToReg { src: _, dst: r }
            | StructuredInstruction::MovIndirectToReg { dst: r, src: _ }
            | StructuredInstruction::AddRegToRegInteger(r, _, _)
            | StructuredInstruction::AddRegToRegFloat(r, _, _)
            | StructuredInstruction::OrRegToReg(r, _, _)
            | StructuredInstruction::AndRegToReg(r, _, _)
            | StructuredInstruction::XorRegToReg(r, _, _)
            | StructuredInstruction::RotRegRight(r, _) => Some(InverseSideEffect::RegisterWrite {
                register: r,
                old_value: self.registers[r.as_index() as usize],
            }),
            StructuredInstruction::MovRegToMem(_, addr) => Some(InverseSideEffect::MemoryWrite {
                address: addr,
                old_value: self.memory[addr as usize],
            }),
            StructuredInstruction::MovRegToIndirect { src: _, dst } => {
                let address = self.registers[dst.as_index() as usize];
                Some(InverseSideEffect::MemoryWrite { address, old_value: self.memory[address as usize] })
            },
            StructuredInstruction::JmpIfEqual(..)
            | StructuredInstruction::Halt
            | StructuredInstruction::JumpWithComparison(..)
            | StructuredInstruction::Nop => None,
        }
    }

    /// What it takes to undo executing `instruction` now.
    pub fn get_inverse_step(&self, instruction: &StructuredInstruction) -> (r: InverseStep)
        ensures
            r == (InverseStep { old_pc: self@.pc, side_effect: spec_inverse_side_effect(self@, *instruction) }),
    {
        InverseStep { old_pc: self.pc, side_effect: self.get_inverse_side_effect(instruction) }
    }

    /// Records that `instruction` is about to execute; a halt is not recorded.
    pub fn record_inverse_step(&mut self, instruction: &StructuredInstruction)
        requires
            old(self).wf(),
        ensures
            final(self).wf(),
            final(self)@ == spec_record(old(self)@, *instruction),
    {
        if *instruction == StructuredInstruction::Halt {
            return;
        }
        let step = self.get_inverse_step(instruction);
        self.undo_history.push(step);
    }

    /// Undoes the most recent recorded step; `false` when there is none.
    pub fn undo_step(&mut self) -> (undone: bool)
        requires
            old(self).wf(),
        ensures
            final(self).wf(),
            (final(self)@, undone) == spec_undo(old(self)@),
    {
        if let Some(entry) = self.undo_history.pop() {
            self.pc = entry.old_pc;
            match entry.side_effect {
                Some(InverseSideEffect::MemoryWrite { address, old_value }) => {
                    self.memory[address as usize] = old_value;
                },
                Some(InverseSideEffect::RegisterWrite { register, old_value }) => {
                    self.registers[register.as_index() as usize] = old_value;
                },
                None => {},
            }
            true
        } else {
            false
        }
    }

    /// A machine with zeroed memory and registers that keeps no undo history.
    pub fn new() -> (m: Self)
        ensures
            m.wf(),
            m@.pc == 0,
            m@.registers == Seq::new(16, |i: int| 0u8),
            m@.memory == Seq::new(256, |i: int| 0u8),
            m@.history == Seq::<InverseStep>::empty(),
            m@.limit == 0,
    {
        Self::new_with_history_limit(0)
    }

    /// Replaces the whole memory.
    pub fn load_memory(&mut self, image: [u8; 256])
        ensures
            final(self)@ == (MachineState { memory: image@, ..old(self)@ }),
    {
        self.memory = image;
    }

    /// Zeroes memory, registers and program counter, and forgets the history.
    pub fn reset(&mut self)
        ensures
            final(self)@ == (MachineState {
                pc: 0,
                registers: Seq::new(16, |i: int| 0u8),
                memory: Seq::new(256, |i: int| 0u8),
                history: Seq::<InverseStep>::empty(),
                ..old(self)@
            }),
    {
        self.reset_memory();
        self.reset_registers();
    }

    /// Zeroes memory and forgets the history.
    pub fn reset_memory(&mut self)
        ensures
            final(self)@ == (MachineState {
                memory: Seq::new(256, |i: int| 0u8),
                history: Seq::<InverseStep>::empty(),
                ..old(self)@
            }),
    {
        self.undo_history.clear();
        self.memory = [0; 256];
        assert(self.memory@ =~= Seq::new(256, |i: int| 0u8));
    }

    /// Zeroes registers and program counter and forgets the history.
    pub fn reset_registers(&mut self)
        ensures
            final(self)@ == (MachineState {
                pc: 0,
                registers: Seq::new(16, |i: int| 0u8),
                history: Seq::<InverseStep>::empty(),
                ..old(self)@
            }),
    {
        self.undo_history.clear();
        self.pc = 0;
        self.registers = [0; 16];
        assert(self.registers@ =~= Seq::new(16, |i: int| 0u8));
    }

    /// Sets the program counter.
    pub fn set_pc(&mut self, value: u8)
        ensures
            final(self)@ == set_pc_to(old(self)@, value),
    {
        self.pc = value;
    }

    /// The program counter.
    pub fn get_pc(&self) -> (pc: u8)
        ensures
            pc == self@.pc,
    {
        self.pc
    }

    /// Sets a memory cell.
    pub fn set_memory(&mut self, address: u8, value: u8)
        ensures
            final(self)@ == set_mem(old(self)@, address, value),
    {
        self.memory[address as usize] = value;
    }

    /// A memory cell.
    pub fn get_memory(&self, address: u8) -> (v: u8)
        ensures
            v == self@.memory[address as int],
    {
        self.memory[address as usize]
    }

    /// A memory cell, to change in place.
    pub fn get_memory_mut(&mut self, address: u8) -> (cell: &mut u8)
        ensures
            *cell == old(self)@.memory[address as int],
            final(self)@ == set_mem(old(self)@, address, *final(cell)),
    {
        &mut self.memory[address as usize]
    }

    /// The whole memory.
    pub fn get_all_memory(&self) -> (mem: &[u8; 256])
        ensures
            mem@ == self@.memory,
    {
        &self.memory
    }

    /// The whole memory, to change in place.
    pub fn get_all_memory_mut(&mut self) -> (mem: &mut [u8; 256])
        ensures
            mem@ == old(self)@.memory,
            final(self)@ == (MachineState { memory: final(mem)@, ..old(self)@ }),
    {
        &mut self.memory
    }

    /// A register.
    pub fn get_register(&self, reg: Register) -> (v: u8)
        ensures
            v == self@.registers[reg_index(reg) as int],
    {
        self.registers[reg.as_index() as usize]
    }

    /// All registers, to change in place.
    pub fn get_all_registers_mut(&mut self) -> (regs: &mut [u8; 16])
        ensures
            regs@ == old(self)@.registers,
            final(self)@ == (MachineState { registers: final(regs)@, ..old(self)@ }),
    {
        &mut self.registers
    }

    /// A register, to change in place.
    pub fn get_register_mut(&mut self, reg: Register) -> (cell: &mut u8)
        ensures
            *cell == old(self)@.registers[reg_index(reg) as int],
            final(self)@ == set_reg(old(self)@, reg, *final(cell)),
    {
        &mut self.registers[reg.as_index() as usize]
    }

    /// Decodes the instruction at `address`; the last cell starts none.
    pub fn fetch_instruction(&mut self, address: u8) -> (r: Result<StructuredInstruction, BrookshearMachineError>)
        ensures
            final(self)@ == old(self)@,
            r == spec_fetch(old(self)@, address),
    {
        if address as usize >= Self::MEMORY_SIZE - 1 {
            return Err(BrookshearMachineError::EndOfMemory);
        }
        let instruction_bytes = [self.memory[address as usize], self.memory[(address + 1) as usize]];
        match StructuredInstruction::from_bytes(instruction_bytes) {
            Some(i) => Ok(i),
            None => Err(BrookshearMachineError::InvalidInstruction(address, instruction_bytes)),
        }
    }

    /// Decodes the instruction at the program counter.
    pub fn fetch_next_instruction(&mut self) -> (r: Result<StructuredInstruction, BrookshearMachineError>)
        ensures
            final(self)@ == old(self)@,
            r == spec_fetch(old(self)@, old(self)@.pc),
    {
        let pc = self.pc;
        self.fetch_instruction(pc)
    }

    /// Executes an instruction, recording it for undo first; the program
    /// counter is left alone.
    pub fn execute_instruction(&mut self, instruction: StructuredInstruction) -> (r: Result<ControlFlow, BrookshearMachineError>)
        requires
            old(self).wf(),
            !execute_panics(old(self)@, instruction),
        ensures
            final(self).wf(),
            r == Ok::<ControlFlow, BrookshearMachineError>(spec_execute(old(self)@, instruction).1),
            final(self)@ == spec_execute(old(self)@, instruction).0,
    {
        self.record_inverse_step(&instruction);
        let flow = self.apply(instruction);
        Ok(flow)
    }

    fn write_reg(&mut self, r: Register, v: u8)
        requires
            old(self).wf(),
        ensures
            final(self).wf(),
            final(self)@ == set_reg(old(self)@, r, v),
    {
        self.registers[r.as_index() as usize] = v;
        assert(self@ =~= set_reg(old(self)@, r, v));
    }

    fn write_mem(&mut self, a: u8, v: u8)
        requires
            old(self).wf(),
        ensures
            final(self).wf(),
            final(self)@ == set_mem(old(self)@, a, v),
    {
        self.memory[a as usize] = v;
        assert(self@ =~= set_mem(old(self)@, a, v));
    }

    fn read_reg(&self, r: Register) -> (v: u8)
        ensures
            v == reg(self@, r),
    {
        self.registers[r.as_index() as usize]
    }

    /// Executes a move, or no operation.
    fn apply_move(&mut self, instruction: StructuredInstruction) -> (flow: ControlFlow)
        requires
            old(self).wf(),
            is_move(instruction),
        ensures
            final(self).wf(),
            (final(self)@, flow) == spec_apply(old(self)@, instruction),
    {
        match instruction {
            StructuredInstruction::MovMemToReg(addr, register) => {
                let v = self.memory[addr as usize];
                self.write_reg(register, v);
            },
            StructuredInstruction::MovImmToReg(val, register) => {
                self.write_reg(register, val);
            },
            StructuredInstruction::MovRegToMem(register, addr) => {
                let v = self.read_reg(register);
                self.write_mem(addr, v);
            },
            StructuredInstruction::MovRegToReg { src, dst } => {
                let v = self.read_reg(src);
                self.write_reg(dst, v);
            },
            StructuredInstruction::MovIndirectToReg { dst, src } => {
                let a = self.read_reg(src);
                let v = self.memory[a as usize];
                self.write_reg(dst, v);
            },
            StructuredInstruction::MovRegToIndirect { src, dst } => {
                let a = self.read_reg(dst);
                let v = self.read_reg(src);
                self.write_mem(a, v);
            },
            _ => {},
        }
        ControlFlow::Continue
    }

    /// Executes an arithmetic, logic or rotate instruction.
    fn apply_alu(&mut self, instruction: StructuredInstruction) -> (flow: ControlFlow)
        requires
            old(self).wf(),
            is_alu(instruction),
            instruction matches StructuredInstruction::AddRegToRegFloat(_, a, b)
                ==> float8_sum(reg(old(self)@, a), reg(old(self)@, b)) is Some,
        ensures
            final(self).wf(),
            (final(self)@, flow) == spec_apply(old(self)@, instruction),
    {
        match instruction {
            StructuredInstruction::AddRegToRegInteger(dest, operand1, operand2) => {
                let v = self.read_reg(operand1).wrapping_add(self.read_reg(operand2));
                self.write_reg(dest, v);
            },
            StructuredInstruction::AddRegToRegFloat(dest, operand1, operand2) => {
                let v = float8_add(self.read_reg(operand1), self.read_reg(operand2));
                self.write_reg(dest, v);
            },
            StructuredInstruction::OrRegToReg(dest, operand1, operand2) => {
                let v = self.read_reg(operand1) | self.read_reg(operand2);
                self.write_reg(dest, v);
            },
            StructuredInstruction::AndRegToReg(dest, operand1, operand2) => {
                let v = self.read_reg(operand1) & self.read_reg(operand2);
                self.write_reg(dest, v);
            },
            StructuredInstruction::XorRegToReg(dest, operand1, operand2) => {
                let v = self.read_reg(operand1) ^ self.read_reg(operand2);
                self.write_reg(dest, v);
            },
            StructuredInstruction::RotRegRight(dest, amount) => {
                let v = rotr(self.read_reg(dest), amount);
                self.write_reg(dest, v);
            },
            _ => {},
        }
        ControlFlow::Continue
    }

    /// Works out where a control instruction goes.
    fn apply_control(&self, instruction: StructuredInstruction) -> (flow: ControlFlow)
        requires
            self.wf(),
            !is_move(instruction) && !is_alu(instruction),
        ensures
            (self@, flow) == spec_apply(self@, instruction),
    {
        match instruction {
            StructuredInstruction::JmpIfEqual(dest, addr) => {
                if self.read_reg(dest) == self.read_reg(Register::R0) {
                    ControlFlow::Jump(addr)
                } else {
                    ControlFlow::Continue
                }
            },
            StructuredInstruction::JumpWithComparison(op, jmp_location, comparison_operand) => {
                if test(op, self.read_reg(comparison_operand), self.read_reg(Register::R0)) {
                    ControlFlow::Jump(self.read_reg(jmp_location))
                } else {
                    ControlFlow::Continue
                }
            },
            _ => ControlFlow::Halt,
        }
    }

    fn apply(&mut self, instruction: StructuredInstruction) -> (flow: ControlFlow)
        requires
            old(self).wf(),
            instruction matches StructuredInstruction::AddRegToRegFloat(_, a, b)
                ==> float8_sum(reg(old(self)@, a), reg(old(self)@, b)) is Some,
        ensures
            final(self).wf(),
            (final(self)@, flow) == spec_apply(old(self)@, instruction),
    {
        if is_move_exec(instruction) {
            self.apply_move(instruction)
        } else if is_alu_exec(instruction) {
            self.apply_alu(instruction)
        } else {
            self.apply_control(instruction)
        }
    }

    /// Executes the instruction at the program counter and moves the program
    /// counter on. `Ok(false)` when the instruction was a halt.
    pub fn step(&mut self) -> (r: Result<bool, BrookshearMachineError>)
        requires
            old(self).wf(),
            !step_panics(old(self)@),
        ensures
            final(self).wf(),
            (final(self)@, r) == spec_step(old(self)@),
    {
        let instruction = match self.fetch_next_instruction() {
            Ok(i) => i,
            Err(e) => return Err(e),
        };
        let flow = match self.execute_instruction(instruction) {
            Ok(f) => f,
            Err(e) => return Err(e),
        };
        match flow {
            ControlFlow::Continue => {
                match self.pc.checked_add(2) {
                    Some(pc) => {
                        self.pc = pc;
                    },
                    None => return Err(BrookshearMachineError::EndOfMemory),
                }
            },
            ControlFlow::Jump(target) => {
                self.pc = target;
            },
            ControlFlow::Halt => {
                return Ok(false);
            },
        }
        Ok(true)
    }
}

impl Default for BrookshearMachine {
    fn default() -> (m: Self)
        ensures
            m.wf(),
            m@.pc == 0,
            m@.registers == Seq::new(16, |i: int| 0u8),
            m@.memory == Seq::new(256, |i: int| 0u8),
            m@.history == Seq::<InverseStep>::empty(),
            m@.limit == 0,
    {
        Self::new()
    }
}

/// The text of a machine error.
pub open spec fn machine_error_text(e: BrookshearMachineError) -> Seq<char> {
    match e {
        BrookshearMachineError::InvalidInstruction(a, b) => "Invalid instruction at address "@ + hex2(a) + ": the bytes "@
            + hex2(b@[0]) + " "@ + hex2(b@[1]) + " do not represent a valid instruction."@,
        BrookshearMachineError::MemoryAccessOutOfBounds(a) => "Memory access out of bounds at address "@ + hex2(a),
        BrookshearMachineError::EndOfMemory => "Reached end of memory without halting"@,
    }
}

impl BrookshearMachineError {
    /// The text of the error.
    pub fn to_text(&self) -> (s: String)
        ensures
            s@ == machine_error_text(*self),
    {
        let mut s = String::new();
        match self {
            BrookshearMachineError::InvalidInstruction(a, b) => {
                push_str(&mut s, "Invalid instruction at address ");
                push_hex2(&mut s, *a);
                push_str(&mut s, ": the bytes ");
                push_hex2(&mut s, b[0]);
                push_str(&mut s, " ");
                push_hex2(&mut s, b[1]);
                push_str(&mut s, " do not represent a valid instruction.");
            },
            BrookshearMachineError::MemoryAccessOutOfBounds(a) => {
                push_str(&mut s, "Memory access out of bounds at address ");
                push_hex2(&mut s, *a);
            },
            BrookshearMachineError::EndOfMemory => {
                push_str(&mut s, "Reached end of memory without halting");
            },
        }
        assert(s@ =~= machine_error_text(*self));
        s
    }
}

/// The message for a memory file that is not 256 bytes long.
pub open spec fn wrong_size_message(n: nat) -> Seq<char> {
    "File is the wrong size. Expected 256 bytes, got: "@ + dec_str(n)
}

/// The bytes of a memory file as a memory image; the file must hold
/// exactly 256 bytes.
pub fn memory_image_from_bytes(bytes: &[u8]) -> (r: Result<[u8; 256], String>)
    ensures
        bytes@.len() == 256 ==> (r matches Ok(m) && m@ == bytes@),
        bytes@.len() != 256 ==> (r matches Err(s) && s@ == wrong_size_message(bytes@.len())),
{
    if bytes.len() != 256 {
        let mut s = String::new();
        push_str(&mut s, "File is the wrong size. Expected 256 bytes, got: ");
        push_dec(&mut s, bytes.len() as u64);
        return Err(s);
    }
    let mut image = [0u8; 256];
    let mut i: usize = 0;
    while i < 256
        invariant
            bytes@.len() == 256,
            i <= 256,
            image@.len() == 256,
            forall|j: int| 0 <= j < i ==> image@[j] == bytes@[j],
        decreases 256 - i,
    {
        image[i] = bytes[i];
        i = i + 1;
    }
    assert(image@ =~= bytes@);
    Ok(image)
}

} // verus!
