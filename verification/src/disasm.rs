//! What an instruction decoder hands to the traversal: the decoded
//! instruction with its control-flow class and its effect on addresses.

use vstd::prelude::*;

verus! {

/// Longest byte window handed to a decoder, and longest instruction accepted.
pub const MAX_INSTRUCTION_LEN: usize = 16;

/// Instruction set of the analysed code.
#[derive(Debug, Clone, Copy, PartialEq, Eq, Structural)]
pub enum Arch {
    ArchX86,
    ArchARM,
    ArchMIPS,
}

/// Operating mode of the processor: the width of addresses and operands.
#[derive(Debug, Clone, Copy, PartialEq, Eq, Structural)]
pub enum Mode {
    Mode16,
    Mode32,
    Mode64,
}

impl Mode {
    /// Width of an address in bits.
    pub open spec fn spec_size(self) -> u8 {
        match self {
            Mode::Mode16 => 16,
            Mode::Mode32 => 32,
            Mode::Mode64 => 64,
        }
    }

    /// Width of an address in bits.
    pub fn get_size(&self) -> (bits: u8)
        ensures
            bits == self.spec_size(),
    {
        match self {
            Mode::Mode16 => 16,
            Mode::Mode32 => 32,
            Mode::Mode64 => 64,
        }
    }
}

/// What is analysed: the instruction set and the mode.
#[derive(Debug, Clone, Copy, PartialEq, Eq, Structural)]
pub struct Xori {
    pub arch: Arch,
    pub mode: Mode,
}

/// The general-purpose registers, named by their 16-bit names.
#[derive(Debug, Clone, Copy, PartialEq, Eq, Structural)]
pub enum Reg {
    Ax,
    Cx,
    Dx,
    Bx,
    Sp,
    Bp,
    Si,
    Di,
}

/// A source operand.
#[derive(Debug, Clone, Copy, PartialEq, Eq, Structural)]
pub enum Operand {
    Reg(Reg),
    Imm(u64),
}

/// The effect of an instruction on the registers that feed addresses.
#[derive(Debug, Clone, Copy, PartialEq, Eq, Structural)]
pub enum Operation {
    /// No effect that the emulator follows.
    Nop,
    Mov { dst: Reg, src: Operand },
    Add { dst: Reg, src: Operand },
    Sub { dst: Reg, src: Operand },
    Push { src: Operand },
    Pop { dst: Reg },
    /// Writes `dst` with a value that the emulator does not follow.
    Clobber { dst: Reg },
}

/// Where a transfer of control goes.
#[derive(Debug, Clone, Copy, PartialEq, Eq, Structural)]
pub enum Target {
    /// An address that the instruction itself gives.
    Direct(u64),
    /// The address held in a register.
    Reg(Reg),
    /// The address stored in the memory word at the given address.
    Mem(u64),
}

/// Control-flow class of an instruction.
#[derive(Debug, Clone, Copy, PartialEq, Eq, Structural)]
pub enum Flow {
    /// Falls through to the next instruction.
    Next,
    Jump(Target),
    /// Conditional jump: the taken target; the other way falls through.
    CondJump(u64),
    Call(Target),
    Return,
}

/// A decoded instruction.
#[derive(Debug, Clone, PartialEq, Eq)]
pub struct Instruction {
    pub address: u64,
    pub size: usize,
    pub bytes: [u8; 16],
    pub mnemonic: String,
    pub op_str: String,
    pub flow: Flow,
    pub operation: Operation,
}

impl Instruction {
    /// The address behind the instruction; it wraps at the end of the
    /// 64-bit address range.
    pub open spec fn spec_next(&self) -> u64 {
        ((self.address + self.size) % 0x1_0000_0000_0000_0000) as u64
    }

    /// The address behind the instruction.
    pub fn next(&self) -> (a: u64)
        ensures
            a == self.spec_next(),
    {
        self.address.wrapping_add(self.size as u64)
    }

    /// The instruction starts at `offset` and lies within a window of
    /// `window` bytes that starts there.
    pub open spec fn spec_fits(&self, offset: u64, window: nat) -> bool {
        self.address == offset && 1 <= self.size <= window
    }

    /// Whether the instruction starts at `offset` and lies within a window of
    /// `window` bytes that starts there.
    pub fn fits(&self, offset: u64, window: usize) -> (b: bool)
        ensures
            b == self.spec_fits(offset, window as nat),
    {
        self.address == offset && 1 <= self.size && self.size <= window
    }
}

/// Why a decoder gave no instruction.
#[derive(Debug, Clone, Copy, PartialEq, Eq, Structural)]
pub enum DecodeError {
    /// The bytes are no instruction.
    Invalid,
    /// The window ends inside the instruction.
    Truncated,
}

} // verus!
