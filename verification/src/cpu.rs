//! The light emulator: registers that hold a value or nothing, and the
//! effect of an instruction on them, on the stack and on the flow of control.

use vstd::prelude::*;
use crate::disasm::{Flow, Instruction, Operand, Operation, Reg, Target};
use crate::memory::{same_layout, spec_read_word, spec_write_word, AddressSpace, RegionModel};

verus! {

/// A register: its value, where the emulator knows one.
#[derive(Debug, Clone, Copy, PartialEq, Eq, Structural)]
pub struct RegValue {
    pub known: bool,
    pub value: u64,
}

impl RegValue {
    pub open spec fn spec_known(value: u64) -> RegValue {
        RegValue { known: true, value }
    }

    pub open spec fn spec_unknown() -> RegValue {
        RegValue { known: false, value: 0 }
    }

    /// A register that holds `value`.
    pub fn known(value: u64) -> (r: RegValue)
        ensures
            r == RegValue::spec_known(value),
    {
        RegValue { known: true, value }
    }

    /// A register of which nothing is known.
    pub fn unknown() -> (r: RegValue)
        ensures
            r == RegValue::spec_unknown(),
    {
        RegValue { known: false, value: 0 }
    }
}

/// The general-purpose registers.
#[derive(Debug, Clone, Copy, PartialEq, Eq, Structural)]
pub struct Registers {
    pub eax: RegValue,
    pub ecx: RegValue,
    pub edx: RegValue,
    pub ebx: RegValue,
    pub esp: RegValue,
    pub ebp: RegValue,
    pub esi: RegValue,
    pub edi: RegValue,
}

impl Registers {
    pub open spec fn spec_get(self, r: Reg) -> RegValue {
        match r {
            Reg::Ax => self.eax,
            Reg::Cx => self.ecx,
            Reg::Dx => self.edx,
            Reg::Bx => self.ebx,
            Reg::Sp => self.esp,
            Reg::Bp => self.ebp,
            Reg::Si => self.esi,
            Reg::Di => self.edi,
        }
    }

    pub open spec fn spec_set(self, r: Reg, v: RegValue) -> Registers {
        match r {
            Reg::Ax => Registers { eax: v, ..self },
            Reg::Cx => Registers { ecx: v, ..self },
            Reg::Dx => Registers { edx: v, ..self },
            Reg::Bx => Registers { ebx: v, ..self },
            Reg::Sp => Registers { esp: v, ..self },
            Reg::Bp => Registers { ebp: v, ..self },
            Reg::Si => Registers { esi: v, ..self },
            Reg::Di => Registers { edi: v, ..self },
        }
    }

    /// What register `r` holds.
    pub fn get(&self, r: Reg) -> (v: RegValue)
        ensures
            v == self.spec_get(r),
    {
        match r {
            Reg::Ax => self.eax,
            Reg::Cx => self.ecx,
            Reg::Dx => self.edx,
            Reg::Bx => self.ebx,
            Reg::Sp => self.esp,
            Reg::Bp => self.ebp,
            Reg::Si => self.esi,
            Reg::Di => self.edi,
        }
    }

    /// Puts `v` into register `r`.
    pub fn set(&mut self, r: Reg, v: RegValue)
        ensures
            *final(self) == old(self).spec_set(r, v),
    {
        match r {
            Reg::Ax => { self.eax = v; },
            Reg::Cx => { self.ecx = v; },
            Reg::Dx => { self.edx = v; },
            Reg::Bx => { self.ebx = v; },
            Reg::Sp => { self.esp = v; },
            Reg::Bp => { self.ebp = v; },
            Reg::Si => { self.esi = v; },
            Reg::Di => { self.edi = v; },
        }
    }
}

/// Segment bases.
#[derive(Debug, Clone, Copy, PartialEq, Eq, Structural)]
pub struct Segments {
    pub cs: u64,
    pub ds: u64,
    pub ss: u64,
}

/// The arithmetic flags, where the last arithmetic result was known.
#[derive(Debug, Clone, Copy, PartialEq, Eq, Structural)]
pub struct Flags {
    pub known: bool,
    pub zero: bool,
    pub sign: bool,
    pub carry: bool,
}

impl Flags {
    pub open spec fn spec_unknown() -> Flags {
        Flags { known: false, zero: false, sign: false, carry: false }
    }

    /// The flags after an arithmetic result `result` of `width` bits.
    pub open spec fn spec_of(result: u64, carry: bool, width: u8) -> Flags {
        Flags { known: true, zero: result == 0, sign: 2 * result >= modulus(width), carry }
    }
}

/// What the emulator makes of one instruction.
#[allow(inconsistent_fields)]
#[derive(Debug, Clone, Copy, PartialEq, Eq, Structural)]
pub enum EmulationOutcome {
    /// Control falls through.
    Continue,
    /// Control goes to `target`; a conditional branch also falls through to
    /// `fallthrough`.
    Branch { target: u64, fallthrough: Option<u64> },
    /// A call of `target` that returns to `return_addr`.
    Call { target: u64, return_addr: u64 },
    /// A return, to the address on top of the emulated stack where the
    /// emulator could read one.
    Return { target: Option<u64> },
    /// A transfer whose target the emulator could not tell.
    IndirectUnresolved,
}

/// Two to the power `width`, for the widths 16 and 32; two to the power 64
/// for every other width.
pub open spec fn modulus(width: u8) -> int {
    if width == 16 {
        0x1_0000
    } else if width == 32 {
        0x1_0000_0000
    } else {
        0x1_0000_0000_0000_0000
    }
}

/// Bytes in a word of `width` bits.
pub open spec fn word_len(width: u8) -> nat {
    if width == 16 {
        2
    } else if width == 32 {
        4
    } else {
        8
    }
}

/// `x` reduced to `width` bits.
pub open spec fn wrap(x: int, width: u8) -> u64 {
    (x % modulus(width)) as u64
}

fn modulus_of(width: u8) -> (m: u128)
    ensures
        m == modulus(width),
{
    if width == 16 {
        0x1_0000
    } else if width == 32 {
        0x1_0000_0000
    } else {
        0x1_0000_0000_0000_0000
    }
}

/// Bytes in a word of `width` bits.
pub fn word_bytes(width: u8) -> (n: usize)
    ensures
        n == word_len(width),
{
    if width == 16 {
        2
    } else if width == 32 {
        4
    } else {
        8
    }
}

/// `value` reduced to `width` bits.
pub fn wrap_value(value: u64, width: u8) -> (r: u64)
    ensures
        r == wrap(value as int, width),
{
    ((value as u128) % modulus_of(width)) as u64
}

/// The sum of `a` and `b`, reduced to `width` bits.
pub fn wrap_sum(a: u64, b: u64, width: u8) -> (r: u64)
    ensures
        r == wrap(a + b, width),
{
    ((a as u128 + b as u128) % modulus_of(width)) as u64
}

/// The difference of `a` and `b`, reduced to `width` bits.
pub fn wrap_diff(a: u64, b: u64, width: u8) -> (r: u64)
    ensures
        r == wrap(a - b, width),
{
    let m: u128 = modulus_of(width);
    if a >= b {
        (((a - b) as u128) % m) as u64
    } else {
        let d: u128 = ((b - a) as u128) % m;
        if d == 0 {
            0
        } else {
            (m - d) as u64
        }
    }
}

/// The state of the emulated processor.
#[derive(Debug, Clone, Copy, PartialEq, Eq, Structural)]
pub struct CpuState {
    pub regs: Registers,
    pub segments: Segments,
    pub flags: Flags,
    /// Width of addresses in bits: 16 and 32 are taken as such, every other
    /// value as 64.
    pub address_size: u8,
    pub stack_address: u64,
}

impl CpuState {
    pub open spec fn spec_new() -> CpuState {
        CpuState {
            regs: Registers {
                eax: RegValue::spec_unknown(),
                ecx: RegValue::spec_unknown(),
                edx: RegValue::spec_unknown(),
                ebx: RegValue::spec_unknown(),
                esp: RegValue::spec_unknown(),
                ebp: RegValue::spec_unknown(),
                esi: RegValue::spec_unknown(),
                edi: RegValue::spec_unknown(),
            },
            segments: Segments { cs: 0, ds: 0, ss: 0 },
            flags: Flags::spec_unknown(),
            address_size: 32,
            stack_address: 0,
        }
    }

    /// A processor of 32 bits of which no register is known.
    pub fn new() -> (cpu: CpuState)
        ensures
            cpu == CpuState::spec_new(),
    {
        CpuState {
            regs: Registers {
                eax: RegValue::unknown(),
                ecx: RegValue::unknown(),
                edx: RegValue::unknown(),
                ebx: RegValue::unknown(),
                esp: RegValue::unknown(),
                ebp: RegValue::unknown(),
                esi: RegValue::unknown(),
                edi: RegValue::unknown(),
            },
            segments: Segments { cs: 0, ds: 0, ss: 0 },
            flags: Flags { known: false, zero: false, sign: false, carry: false },
            address_size: 32,
            stack_address: 0,
        }
    }

    /// The state with `v` in register `r`.
    pub open spec fn with_reg(self, r: Reg, v: RegValue) -> CpuState {
        CpuState { regs: self.regs.spec_set(r, v), ..self }
    }

    /// What a source operand evaluates to.
    pub open spec fn spec_eval(self, src: Operand) -> RegValue {
        match src {
            Operand::Reg(r) => self.regs.spec_get(r),
            Operand::Imm(v) => RegValue::spec_known(wrap(v as int, self.address_size)),
        }
    }

    /// The state after `dst` took the sum of itself and `src`.
    pub open spec fn spec_add(self, dst: Reg, src: Operand) -> CpuState {
        let a = self.regs.spec_get(dst);
        let b = self.spec_eval(src);
        if a.known && b.known {
            let r = wrap(a.value + b.value, self.address_size);
            CpuState {
                flags: Flags::spec_of(
                    r,
                    a.value + b.value >= modulus(self.address_size),
                    self.address_size,
                ),
                ..self.with_reg(dst, RegValue::spec_known(r))
            }
        } else {
            CpuState { flags: Flags::spec_unknown(), ..self.with_reg(dst, RegValue::spec_unknown()) }
        }
    }

    /// The state after `dst` took the difference of itself and `src`.
    pub open spec fn spec_sub(self, dst: Reg, src: Operand) -> CpuState {
        let a = self.regs.spec_get(dst);
        let b = self.spec_eval(src);
        if a.known && b.known {
            let r = wrap(a.value - b.value, self.address_size);
            CpuState {
                flags: Flags::spec_of(r, a.value < b.value, self.address_size),
                ..self.with_reg(dst, RegValue::spec_known(r))
            }
        } else {
            CpuState { flags: Flags::spec_unknown(), ..self.with_reg(dst, RegValue::spec_unknown()) }
        }
    }

    /// State and memory after `value` was pushed: the stack pointer goes
    /// down by one word, and a known value is written where it then points.
    /// Nothing happens while the stack pointer is unknown.
    pub open spec fn spec_push(self, mem: Seq<RegionModel>, value: RegValue) -> (
        CpuState,
        Seq<RegionModel>,
    ) {
        let sp = self.regs.esp;
        if sp.known {
            let top = wrap(sp.value - word_len(self.address_size), self.address_size);
            let cpu = self.with_reg(Reg::Sp, RegValue::spec_known(top));
            if value.known {
                (cpu, spec_write_word(mem, top, value.value, word_len(self.address_size)))
            } else {
                (cpu, mem)
            }
        } else {
            (self, mem)
        }
    }

    /// The state after one word was popped, and the word, where the stack
    /// pointer is known and points at readable memory.
    pub open spec fn spec_pop(self, mem: Seq<RegionModel>) -> (CpuState, Option<u64>) {
        let sp = self.regs.esp;
        if sp.known {
            let up = wrap(sp.value + word_len(self.address_size), self.address_size);
            (
                self.with_reg(Reg::Sp, RegValue::spec_known(up)),
                spec_read_word(mem, sp.value, word_len(self.address_size)),
            )
        } else {
            (self, None)
        }
    }

    /// State and memory after the effect `operation`.
    pub open spec fn spec_execute(self, mem: Seq<RegionModel>, operation: Operation) -> (
        CpuState,
        Seq<RegionModel>,
    ) {
        match operation {
            Operation::Nop => (self, mem),
            Operation::Mov { dst, src } => (self.with_reg(dst, self.spec_eval(src)), mem),
            Operation::Add { dst, src } => (self.spec_add(dst, src), mem),
            Operation::Sub { dst, src } => (self.spec_sub(dst, src), mem),
            Operation::Push { src } => self.spec_push(mem, self.spec_eval(src)),
            Operation::Pop { dst } => {
                let (cpu, word) = self.spec_pop(mem);
                let v = match word {
                    Some(w) => RegValue::spec_known(wrap(w as int, self.address_size)),
                    None => RegValue::spec_unknown(),
                };
                (cpu.with_reg(dst, v), mem)
            },
            Operation::Clobber { dst } => (self.with_reg(dst, RegValue::spec_unknown()), mem),
        }
    }

    /// The address that `target` stands for, where the state tells.
    pub open spec fn spec_resolve(self, mem: Seq<RegionModel>, target: Target) -> Option<u64> {
        match target {
            Target::Direct(a) => Some(a),
            Target::Reg(r) => {
                let v = self.regs.spec_get(r);
                if v.known {
                    Some(v.value)
                } else {
                    None
                }
            },
            Target::Mem(slot) => spec_read_word(mem, slot, word_len(self.address_size)),
        }
    }

    /// State, memory and outcome after the instruction: first its effect,
    /// then its transfer of control.
    pub open spec fn spec_apply(self, mem: Seq<RegionModel>, instr: Instruction) -> (
        CpuState,
        Seq<RegionModel>,
        EmulationOutcome,
    ) {
        let (cpu, mem1) = self.spec_execute(mem, instr.operation);
        match instr.flow {
            Flow::Next => (cpu, mem1, EmulationOutcome::Continue),
            Flow::Jump(t) => match cpu.spec_resolve(mem1, t) {
                Some(a) => (cpu, mem1, EmulationOutcome::Branch { target: a, fallthrough: None }),
                None => (cpu, mem1, EmulationOutcome::IndirectUnresolved),
            },
            Flow::CondJump(a) => (
                cpu,
                mem1,
                EmulationOutcome::Branch { target: a, fallthrough: Some(instr.spec_next()) },
            ),
            Flow::Call(t) => match cpu.spec_resolve(mem1, t) {
                Some(a) => {
                    let (cpu2, mem2) = cpu.spec_push(
                        mem1,
                        RegValue::spec_known(instr.spec_next()),
                    );
                    (
                        cpu2,
                        mem2,
                        EmulationOutcome::Call { target: a, return_addr: instr.spec_next() },
                    )
                },
                None => (cpu, mem1, EmulationOutcome::IndirectUnresolved),
            },
            Flow::Return => {
                let (cpu2, word) = cpu.spec_pop(mem1);
                (cpu2, mem1, EmulationOutcome::Return { target: word })
            },
        }
    }

    /// What a source operand evaluates to.
    pub fn eval(&self, src: Operand) -> (v: RegValue)
        ensures
            v == self.spec_eval(src),
    {
        match src {
            Operand::Reg(r) => self.regs.get(r),
            Operand::Imm(v) => RegValue::known(wrap_value(v, self.address_size)),
        }
    }

    fn add(&mut self, dst: Reg, src: Operand)
        ensures
            *final(self) == old(self).spec_add(dst, src),
    {
        let a = self.regs.get(dst);
        let b = self.eval(src);
        if a.known && b.known {
            let width = self.address_size;
            let r = wrap_sum(a.value, b.value, width);
            let m = modulus_of(width);
            self.regs.set(dst, RegValue::known(r));
            self.flags = Flags {
                known: true,
                zero: r == 0,
                sign: 2 * (r as u128) >= m,
                carry: a.value as u128 + b.value as u128 >= m,
            };
        } else {
            self.regs.set(dst, RegValue::unknown());
            self.flags = Flags { known: false, zero: false, sign: false, carry: false };
        }
    }

    fn sub(&mut self, dst: Reg, src: Operand)
        ensures
            *final(self) == old(self).spec_sub(dst, src),
    {
        let a = self.regs.get(dst);
        let b = self.eval(src);
        if a.known && b.known {
            let width = self.address_size;
            let r = wrap_diff(a.value, b.value, width);
            let m = modulus_of(width);
            self.regs.set(dst, RegValue::known(r));
            self.flags = Flags {
                known: true,
                zero: r == 0,
                sign: 2 * (r as u128) >= m,
                carry: a.value < b.value,
            };
        } else {
            self.regs.set(dst, RegValue::unknown());
            self.flags = Flags { known: false, zero: false, sign: false, carry: false };
        }
    }

    fn push(&mut self, mem: &mut AddressSpace, value: RegValue)
        requires
            old(mem).wf(),
        ensures
            final(mem).wf(),
            (*final(self), final(mem)@) == old(self).spec_push(old(mem)@, value),
            same_layout(old(mem)@, final(mem)@),
    {
        let sp = self.regs.esp;
        if sp.known {
            let n = word_bytes(self.address_size);
            let top = wrap_diff(sp.value, n as u64, self.address_size);
            self.regs.set(Reg::Sp, RegValue::known(top));
            if value.known {
                mem.write_word(top, value.value, n);
            }
        }
    }

    fn pop(&mut self, mem: &AddressSpace) -> (word: Option<u64>)
        requires
            mem.wf(),
        ensures
            (*final(self), word) == old(self).spec_pop(mem@),
    {
        let sp = self.regs.esp;
        if sp.known {
            let n = word_bytes(self.address_size);
            let up = wrap_sum(sp.value, n as u64, self.address_size);
            self.regs.set(Reg::Sp, RegValue::known(up));
            mem.read_word(sp.value, n)
        } else {
            None
        }
    }

    /// Carries out the effect `operation` on the registers and the stack.
    pub fn execute(&mut self, mem: &mut AddressSpace, operation: Operation)
        requires
            old(mem).wf(),
        ensures
            final(mem).wf(),
            (*final(self), final(mem)@) == old(self).spec_execute(old(mem)@, operation),
            same_layout(old(mem)@, final(mem)@),
    {
        match operation {
            Operation::Nop => {},
            Operation::Mov { dst, src } => {
                let v = self.eval(src);
                self.regs.set(dst, v);
            },
            Operation::Add { dst, src } => {
                self.add(dst, src);
            },
            Operation::Sub { dst, src } => {
                self.sub(dst, src);
            },
            Operation::Push { src } => {
                let v = self.eval(src);
                self.push(mem, v);
            },
            Operation::Pop { dst } => {
                let width = self.address_size;
                let v = match self.pop(mem) {
                    Some(w) => RegValue::known(wrap_value(w, width)),
                    None => RegValue::unknown(),
                };
                self.regs.set(dst, v);
            },
            Operation::Clobber { dst } => {
                self.regs.set(dst, RegValue::unknown());
            },
        }
    }

    /// The address that `target` stands for, where the state tells.
    pub fn resolve(&self, mem: &AddressSpace, target: Target) -> (r: Option<u64>)
        requires
            mem.wf(),
        ensures
            r == self.spec_resolve(mem@, target),
    {
        match target {
            Target::Direct(a) => Some(a),
            Target::Reg(r) => {
                let v = self.regs.get(r);
                if v.known {
                    Some(v.value)
                } else {
                    None
                }
            },
            Target::Mem(slot) => mem.read_word(slot, word_bytes(self.address_size)),
        }
    }

    /// Emulates one instruction: its effect on registers and stack, then its
    /// transfer of control. A call pushes its return address; a return pops
    /// one word. An indirect target that the state does not tell gives
    /// `IndirectUnresolved`.
    pub fn apply(&mut self, instr: &Instruction, mem: &mut AddressSpace) -> (outcome:
        EmulationOutcome)
        requires
            old(mem).wf(),
        ensures
            final(mem).wf(),
            (*final(self), final(mem)@, outcome) == old(self).spec_apply(old(mem)@, *instr),
            same_layout(old(mem)@, final(mem)@),
    {
        self.execute(mem, instr.operation);
        let ghost mid = mem@;
        let outcome = match instr.flow {
            Flow::Next => EmulationOutcome::Continue,
            Flow::Jump(t) => match self.resolve(mem, t) {
                Some(a) => EmulationOutcome::Branch { target: a, fallthrough: None },
                None => EmulationOutcome::IndirectUnresolved,
            },
            Flow::CondJump(a) => EmulationOutcome::Branch {
                target: a,
                fallthrough: Some(instr.next()),
            },
            Flow::Call(t) => match self.resolve(mem, t) {
                Some(a) => {
                    let back = instr.next();
                    self.push(mem, RegValue::known(back));
                    EmulationOutcome::Call { target: a, return_addr: back }
                },
                None => EmulationOutcome::IndirectUnresolved,
            },
            Flow::Return => {
                let word = self.pop(mem);
                EmulationOutcome::Return { target: word }
            },
        };
        proof {
            crate::memory::lemma_same_layout_trans(old(mem)@, mid, mem@);
        }
        outcome
    }
}

/// What the control-flow class alone tells of an instruction: only direct
/// targets are followed.
pub open spec fn spec_classify(instr: Instruction) -> EmulationOutcome {
    match instr.flow {
        Flow::Next => EmulationOutcome::Continue,
        Flow::Jump(Target::Direct(a)) => EmulationOutcome::Branch { target: a, fallthrough: None },
        Flow::Jump(_) => EmulationOutcome::IndirectUnresolved,
        Flow::CondJump(a) => EmulationOutcome::Branch {
            target: a,
            fallthrough: Some(instr.spec_next()),
        },
        Flow::Call(Target::Direct(a)) => EmulationOutcome::Call {
            target: a,
            return_addr: instr.spec_next(),
        },
        Flow::Call(_) => EmulationOutcome::IndirectUnresolved,
        Flow::Return => EmulationOutcome::Return { target: None },
    }
}

/// Classifies an instruction by its control-flow class alone, without any
/// processor state.
pub fn classify(instr: &Instruction) -> (outcome: EmulationOutcome)
    ensures
        outcome == spec_classify(*instr),
{
    match instr.flow {
        Flow::Next => EmulationOutcome::Continue,
        Flow::Jump(Target::Direct(a)) => EmulationOutcome::Branch { target: a, fallthrough: None },
        Flow::Jump(_) => EmulationOutcome::IndirectUnresolved,
        Flow::CondJump(a) => EmulationOutcome::Branch {
            target: a,
            fallthrough: Some(instr.next()),
        },
        Flow::Call(Target::Direct(a)) => EmulationOutcome::Call {
            target: a,
            return_addr: instr.next(),
        },
        Flow::Call(_) => EmulationOutcome::IndirectUnresolved,
        Flow::Return => EmulationOutcome::Return { target: None },
    }
}

} // verus!
