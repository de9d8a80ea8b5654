//! The traversal as mathematics: the state of the engine, and what one step
//! makes of it.

use vstd::prelude::*;
use crate::cpu::{spec_classify, CpuState, EmulationOutcome};
use crate::disasm::{DecodeError, Instruction, Mode, MAX_INSTRUCTION_LEN};
use crate::functions::{
    spec_add_jump, spec_add_return, spec_add_xref, spec_displacement, spec_set_return_value,
    table_wf, FuncModel,
};
use crate::loops::LoopModel;
use crate::memory::{has_cover, regions_fit, spec_window, RegionModel};

verus! {

/// What the bytes at a work item's address are taken for.
#[derive(Debug, Clone, Copy, PartialEq, Eq, Structural)]
pub enum AnalysisType {
    Code,
    Data,
}

/// One entry of the shadow call stack: where the callee returns to, and the
/// function that the call was made from.
#[derive(Debug, Clone, Copy, PartialEq, Eq, Structural)]
pub struct Frame {
    pub return_addr: u64,
    pub caller: Option<u64>,
}

/// What the traversal noted of an instruction's transfer of control.
#[derive(Debug, Clone, Copy, PartialEq, Eq, Structural)]
pub enum Detail {
    /// Nothing to note.
    Plain,
    /// The transfer goes to this address.
    Target(u64),
    /// The target could not be told; the transfer was not followed.
    Unresolved,
}

/// An instruction of the instruction map.
#[derive(Debug, Clone, PartialEq, Eq)]
pub struct InstructionInfo {
    pub instr: Instruction,
    pub detail: Detail,
}

/// The mathematical content of a work item.
pub struct ItemModel {
    pub offset: u64,
    pub cpu: CpuState,
    pub call_stack: Seq<Frame>,
    pub owning_function: Option<u64>,
    pub emulation_enabled: bool,
    pub loops: LoopModel,
    pub analysis_type: AnalysisType,
}

impl ItemModel {
    /// The item's instruction is emulated, not only classified.
    pub open spec fn emulates(self) -> bool {
        self.emulation_enabled && self.analysis_type == AnalysisType::Code
    }
}

/// The frame nearest to the top of `stack` that returns to `target`.
pub open spec fn nearest_frame(stack: Seq<Frame>, target: u64) -> Option<int>
    decreases stack.len(),
{
    if stack.len() == 0 {
        None
    } else if stack.last().return_addr == target {
        Some(stack.len() - 1)
    } else {
        nearest_frame(stack.drop_last(), target)
    }
}

/// The frame that a return unwinds to: the nearest one that returns to the
/// address read from the emulated stack, else the top one; none on an empty
/// stack.
pub open spec fn spec_unwind(stack: Seq<Frame>, target: Option<u64>) -> Option<int> {
    if stack.len() == 0 {
        None
    } else {
        match target {
            Some(t) => match nearest_frame(stack, t) {
                Some(i) => Some(i),
                None => Some(stack.len() - 1),
            },
            None => Some(stack.len() - 1),
        }
    }
}

/// The note that the instruction map keeps of an outcome.
pub open spec fn detail_of(outcome: EmulationOutcome) -> Detail {
    match outcome {
        EmulationOutcome::Continue => Detail::Plain,
        EmulationOutcome::Branch { target, .. } => Detail::Target(target),
        EmulationOutcome::Call { target, .. } => Detail::Target(target),
        EmulationOutcome::Return { .. } => Detail::Plain,
        EmulationOutcome::IndirectUnresolved => Detail::Unresolved,
    }
}

/// The function table after the instruction `instr` of `item` had the
/// outcome `outcome`: a call is noted at its callee, a jump and a return at
/// the function that owns the item.
pub open spec fn bookkeeping(
    functions: Map<u64, FuncModel>,
    item: ItemModel,
    instr: Instruction,
    cpu: CpuState,
    outcome: EmulationOutcome,
) -> Map<u64, FuncModel> {
    match outcome {
        EmulationOutcome::Continue => functions,
        EmulationOutcome::Branch { target, .. } => match item.owning_function {
            Some(f) => spec_add_jump(
                functions,
                f,
                instr.address,
                spec_displacement(instr.spec_next(), target),
            ),
            None => functions,
        },
        EmulationOutcome::Call { target, .. } => spec_add_xref(functions, target, instr.address),
        EmulationOutcome::Return { .. } => match item.owning_function {
            Some(f) => {
                let noted = spec_add_return(functions, f, instr.address);
                if cpu.regs.eax.known {
                    spec_set_return_value(noted, f, instr.address, cpu.regs.eax.value)
                } else {
                    noted
                }
            },
            None => functions,
        },
        EmulationOutcome::IndirectUnresolved => functions,
    }
}

/// The mathematical content of the engine.
pub struct EngineModel {
    pub mode: Mode,
    pub memory: Seq<RegionModel>,
    pub instructions: Map<u64, InstructionInfo>,
    pub functions: Map<u64, FuncModel>,
    pub queue: Seq<ItemModel>,
    pub unresolved: Seq<u64>,
    pub truncated: usize,
}

impl EngineModel {
    /// The instruction recorded at `a` starts at `a`, is not empty and lies
    /// within one region.
    pub open spec fn placed(self, a: u64) -> bool {
        let i = self.instructions[a].instr;
        i.address == a && i.size >= 1 && has_cover(self.memory, a, i.size as nat)
    }

    /// The call recorded at `a`, where its target is known, is noted at the
    /// callee.
    pub open spec fn call_noted(self, a: u64) -> bool {
        self.instructions[a].instr.flow is Call ==> (self.instructions[a].detail matches Detail::Target(
            t,
        ) ==> self.functions.contains_key(t) && self.functions[t].xrefs.contains(a))
    }

    /// What the function at `f` holds is backed by the instruction map: each
    /// call site is a recorded call of `f`, each return a recorded return.
    pub open spec fn backed(self, f: u64) -> bool {
        &&& forall|a: u64| #[trigger]
            self.functions[f].xrefs.contains(a) ==> self.instructions.contains_key(a)
                && self.instructions[a].instr.flow is Call && self.instructions[a].detail
                == Detail::Target(f)
        &&& forall|a: u64| #[trigger]
            self.functions[f].returns.contains(a) ==> self.instructions.contains_key(a)
                && self.instructions[a].instr.flow is Return
    }

    /// The invariant of the traversal.
    pub open spec fn wf(self) -> bool {
        &&& regions_fit(self.memory)
        &&& table_wf(self.functions)
        &&& forall|i: int| 0 <= i < self.queue.len() ==> (#[trigger] self.queue[i]).loops.wf()
        &&& forall|a: u64| #[trigger] self.instructions.contains_key(a) ==> self.placed(a)
        &&& forall|a: u64| #[trigger] self.instructions.contains_key(a) ==> self.call_noted(a)
        &&& forall|f: u64| #[trigger] self.functions.contains_key(f) ==> self.backed(f)
    }

    /// The engine after the successor `s` was offered to the loop guard: in
    /// the queue behind all others with its visit counted, or dropped and
    /// counted as truncated.
    pub open spec fn offer(self, s: ItemModel) -> EngineModel {
        if s.loops.admits(s.offset) {
            EngineModel {
                queue: self.queue.push(ItemModel { loops: s.loops.visit(s.offset), ..s }),
                ..self
            }
        } else {
            EngineModel {
                truncated: if self.truncated < usize::MAX {
                    (self.truncated + 1) as usize
                } else {
                    self.truncated
                },
                ..self
            }
        }
    }

    /// The engine after the successors of an instruction with the outcome
    /// `outcome` were offered: the taken target before the fall-through.
    /// `next` is the address behind the instruction.
    pub open spec fn follow(
        self,
        item: ItemModel,
        next: u64,
        cpu: CpuState,
        outcome: EmulationOutcome,
    ) -> EngineModel {
        let base = ItemModel { cpu, ..item };
        match outcome {
            EmulationOutcome::Continue => self.offer(ItemModel { offset: next, ..base }),
            EmulationOutcome::Branch { target, fallthrough } => {
                let taken = self.offer(ItemModel { offset: target, ..base });
                match fallthrough {
                    Some(other) => taken.offer(ItemModel { offset: other, ..base }),
                    None => taken,
                }
            },
            EmulationOutcome::Call { target, return_addr } => self.offer(
                ItemModel {
                    offset: target,
                    call_stack: item.call_stack.push(
                        Frame { return_addr, caller: item.owning_function },
                    ),
                    owning_function: Some(target),
                    ..base
                },
            ),
            EmulationOutcome::Return { target } => match spec_unwind(item.call_stack, target) {
                Some(i) => self.offer(
                    ItemModel {
                        offset: item.call_stack[i].return_addr,
                        call_stack: item.call_stack.take(i),
                        owning_function: item.call_stack[i].caller,
                        ..base
                    },
                ),
                None => self,
            },
            EmulationOutcome::IndirectUnresolved => self,
        }
    }

    /// The decoder's answer for `item` is taken: it is an instruction that
    /// starts at the item's address and lies within the window, at an address
    /// that the instruction map does not hold yet.
    pub open spec fn accepts(
        self,
        item: ItemModel,
        window: nat,
        decoded: Result<Instruction, DecodeError>,
    ) -> bool {
        &&& decoded matches Ok(instr)
        &&& instr.spec_fits(item.offset, window)
        &&& !self.instructions.contains_key(item.offset)
    }

    /// Processor state, memory and outcome of the item's instruction:
    /// emulated where the item asks for it, else classified.
    pub open spec fn outcome_of(self, item: ItemModel, instr: Instruction) -> (
        CpuState,
        Seq<RegionModel>,
        EmulationOutcome,
    ) {
        if item.emulates() {
            item.cpu.spec_apply(self.memory, instr)
        } else {
            (item.cpu, self.memory, spec_classify(instr))
        }
    }

    /// The engine after the decoder's answer `decoded` for the item `item`,
    /// which was taken from the queue before. An answer that is not taken
    /// ends the item's path and changes nothing. Else the instruction is
    /// recorded, its effect emulated or classified, the function table
    /// brought up to date and the successors offered.
    pub open spec fn advance(
        self,
        item: ItemModel,
        window: nat,
        decoded: Result<Instruction, DecodeError>,
    ) -> EngineModel {
        if !self.accepts(item, window, decoded) {
            self
        } else {
            let instr = decoded->Ok_0;
            let (cpu, memory, outcome) = self.outcome_of(item, instr);
            let recorded = EngineModel {
                memory,
                instructions: self.instructions.insert(
                    item.offset,
                    InstructionInfo { instr, detail: detail_of(outcome) },
                ),
                functions: bookkeeping(self.functions, item, instr, cpu, outcome),
                unresolved: if outcome is IndirectUnresolved {
                    self.unresolved.push(item.offset)
                } else {
                    self.unresolved
                },
                ..self
            };
            recorded.follow(item, instr.spec_next(), cpu, outcome)
        }
    }

    /// The engine with `item` put at the end of the queue, past the loop
    /// guard: this is how a pass is seeded.
    pub open spec fn seeded(self, item: ItemModel) -> EngineModel {
        EngineModel { queue: self.queue.push(item), ..self }
    }

    /// The engine with the first item taken from the queue.
    pub open spec fn popped(self) -> EngineModel {
        EngineModel { queue: self.queue.drop_first(), ..self }
    }

    /// The window of bytes that the decoder is handed for the first item of
    /// the queue; none where no region holds the item's address.
    pub open spec fn request(self) -> Option<Seq<u8>> {
        match spec_window(self.memory, self.queue[0].offset, MAX_INSTRUCTION_LEN as nat) {
            Ok(w) => Some(w),
            Err(_) => None,
        }
    }

    /// One step of the traversal: the first item leaves the queue; where a
    /// region holds its address, the decoder's answer `answer` for the bytes
    /// there is worked in. With an empty queue nothing happens.
    pub open spec fn step(self, answer: Result<Instruction, DecodeError>) -> EngineModel {
        if self.queue.len() == 0 {
            self
        } else {
            match self.request() {
                Some(w) => self.popped().advance(self.queue[0], w.len(), answer),
                None => self.popped(),
            }
        }
    }

    /// The engine after the steps that the answers `answers` give, in their
    /// order.
    pub open spec fn replay(self, answers: Seq<Result<Instruction, DecodeError>>) -> EngineModel
        decreases answers.len(),
    {
        if answers.len() == 0 {
            self
        } else {
            self.replay(answers.drop_last()).step(answers.last())
        }
    }
}

} // verus!
