//! The traversal engine: a queue of work items, drained one decoded
//! instruction at a time.

use vstd::prelude::*;
use std::collections::BTreeMap;
use std::collections::VecDeque;
use crate::cpu::{classify, CpuState, EmulationOutcome};
use crate::disasm::{DecodeError, Instruction, Mode, MAX_INSTRUCTION_LEN};
use crate::functions::{displacement, FunctionTable};
use crate::laws::{extends, lemma_advance_wf, lemma_step, lemma_window_covered, pending};
use crate::replay::{answered, consistent};
use crate::loops::LoopState;
use crate::memory::{has_cover, same_layout, AddressSpace};
use crate::model::{
    bookkeeping, nearest_frame, spec_unwind, AnalysisType, Detail, EngineModel, Frame,
    InstructionInfo, ItemModel,
};

verus! {

/// One pending point of the exploration: an address with the processor
/// state, the call stack and the loop history of the path that led to it.
#[derive(Debug)]
pub struct WorkItem {
    pub offset: u64,
    pub cpu: CpuState,
    pub call_stack: Vec<Frame>,
    pub owning_function: Option<u64>,
    pub emulation_enabled: bool,
    pub loop_state: LoopState,
    pub analysis_type: AnalysisType,
}

impl View for WorkItem {
    type V = ItemModel;

    open spec fn view(&self) -> ItemModel {
        ItemModel {
            offset: self.offset,
            cpu: self.cpu,
            call_stack: self.call_stack@,
            owning_function: self.owning_function,
            emulation_enabled: self.emulation_enabled,
            loops: self.loop_state@,
            analysis_type: self.analysis_type,
        }
    }
}

impl WorkItem {
    /// An independent copy of the item, for a path that forks off.
    pub fn fork(&self) -> (copy: WorkItem)
        ensures
            copy@ == self@,
    {
        let mut call_stack: Vec<Frame> = Vec::new();
        let mut i: usize = 0;
        while i < self.call_stack.len()
            invariant
                i <= self.call_stack@.len(),
                call_stack@ == self.call_stack@.subrange(0, i as int),
            decreases self.call_stack@.len() - i,
        {
            call_stack.push(self.call_stack[i]);
            assert(call_stack@ =~= self.call_stack@.subrange(0, i + 1));
            i += 1;
        }
        assert(call_stack@ =~= self.call_stack@);
        WorkItem {
            offset: self.offset,
            cpu: self.cpu,
            call_stack,
            owning_function: self.owning_function,
            emulation_enabled: self.emulation_enabled,
            loop_state: self.loop_state.fork(),
            analysis_type: self.analysis_type,
        }
    }

    /// Whether the item's instruction is emulated, not only classified.
    pub fn emulates(&self) -> (b: bool)
        ensures
            b == self@.emulates(),
    {
        match self.analysis_type {
            AnalysisType::Code => self.emulation_enabled,
            AnalysisType::Data => false,
        }
    }
}

/// The frame that a return unwinds to: the nearest one that returns to
/// `target`, else the top one; none on an empty stack.
pub fn unwind(stack: &Vec<Frame>, target: Option<u64>) -> (r: Option<usize>)
    ensures
        match r {
            Some(i) => spec_unwind(stack@, target) == Some(i as int) && i < stack@.len(),
            None => spec_unwind(stack@, target) is None,
        },
{
    let n: usize = stack.len();
    if n == 0 {
        return None;
    }
    match target {
        Some(t) => {
            let mut i: usize = n;
            assert(stack@.take(n as int) =~= stack@);
            while i > 0
                invariant
                    i <= n,
                    n == stack@.len(),
                    target == Some(t),
                    nearest_frame(stack@, t) == nearest_frame(stack@.take(i as int), t),
                decreases i,
            {
                assert(stack@.take(i as int).drop_last() =~= stack@.take(i - 1));
                assert(stack@.take(i as int).last() == stack@[i - 1]);
                assert(stack@.take(i as int).len() == i);
                if stack[i - 1].return_addr == t {
                    assert(nearest_frame(stack@.take(i as int), t) == Some(i - 1));
                    return Some(i - 1);
                }
                i -= 1;
            }
            Some(n - 1)
        },
        None => Some(n - 1),
    }
}

/// The engine: address space, instruction map, function table and the
/// queue of work items.
#[derive(Debug)]
pub struct Engine {
    pub mode: Mode,
    pub memory: AddressSpace,
    pub instr_info: BTreeMap<u64, InstructionInfo>,
    pub functions: FunctionTable,
    pub queue: VecDeque<WorkItem>,
    /// Addresses of the transfers that were recorded but not followed.
    pub unresolved: Vec<u64>,
    /// How many successors the loop guard turned away.
    pub truncated: usize,
}

impl View for Engine {
    type V = EngineModel;

    open spec fn view(&self) -> EngineModel {
        EngineModel {
            mode: self.mode,
            memory: self.memory@,
            instructions: self.instr_info@,
            functions: self.functions@,
            queue: Seq::new(self.queue@.len(), |i: int| self.queue@[i]@),
            unresolved: self.unresolved@,
            truncated: self.truncated,
        }
    }
}

impl Engine {
    /// The invariant of the traversal: see [`EngineModel::wf`].
    pub open spec fn wf(&self) -> bool {
        self@.wf()
    }

    /// An engine over the address space `memory` with nothing decoded, no
    /// function and an empty queue.
    pub fn new(mode: Mode, memory: AddressSpace) -> (engine: Engine)
        requires
            memory.wf(),
        ensures
            engine.wf(),
            engine@ == (EngineModel {
                mode,
                memory: memory@,
                instructions: Map::<u64, InstructionInfo>::empty(),
                functions: Map::<u64, crate::functions::FuncModel>::empty(),
                queue: Seq::<ItemModel>::empty(),
                unresolved: Seq::<u64>::empty(),
                truncated: 0,
            }),
    {
        let engine = Engine {
            mode,
            memory,
            instr_info: BTreeMap::new(),
            functions: FunctionTable::new(),
            queue: VecDeque::new(),
            unresolved: Vec::new(),
            truncated: 0,
        };
        assert(engine@.queue =~= Seq::<ItemModel>::empty());
        engine
    }

    /// Puts `item` at the end of the queue, without asking the loop guard:
    /// this is how a pass is seeded.
    pub fn seed(&mut self, item: WorkItem)
        requires
            old(self).wf(),
            item.loop_state.wf(),
        ensures
            final(self).wf(),
            final(self)@ == old(self)@.seeded(item@),
    {
        let ghost before = self@;
        let ghost model = item@;
        self.queue.push_back(item);
        assert(self@.queue =~= before.queue.push(model));
        proof {
            let after = self@;
            assert forall|a: u64| #[trigger] after.instructions.contains_key(
                a,
            ) implies after.placed(a) by {
                assert(before.placed(a));
            }
            assert forall|a: u64| #[trigger] after.instructions.contains_key(
                a,
            ) implies after.call_noted(a) by {
                assert(before.call_noted(a));
            }
            assert forall|f: u64| #[trigger] after.functions.contains_key(f) implies after.backed(
                f,
            ) by {
                assert(before.backed(f));
            }
        }
    }

    /// Offers a successor to the loop guard: it joins the queue with its
    /// visit counted, or is dropped and counted as truncated.
    fn offer(&mut self, item: WorkItem)
        requires
            item.loop_state.wf(),
        ensures
            final(self)@ == old(self)@.offer(item@),
    {
        let ghost before = self@;
        let mut item = item;
        let address = item.offset;
        if item.loop_state.should_visit(address) {
            let ghost model = item@;
            self.queue.push_back(item);
            assert(self@.queue =~= before.queue.push(model));
        } else {
            if self.truncated < usize::MAX {
                self.truncated += 1;
            }
            assert(self@.queue =~= before.queue);
        }
    }

    /// Offers the successors of an instruction: the taken target before the
    /// fall-through.
    fn follow(&mut self, item: WorkItem, next: u64, cpu: CpuState, outcome: EmulationOutcome)
        requires
            item.loop_state.wf(),
        ensures
            final(self)@ == old(self)@.follow(item@, next, cpu, outcome),
    {
        let mut base = item;
        base.cpu = cpu;
        match outcome {
            EmulationOutcome::Continue => {
                base.offset = next;
                self.offer(base);
            },
            EmulationOutcome::Branch { target, fallthrough } => {
                match fallthrough {
                    Some(other) => {
                        let mut second = base.fork();
                        second.offset = other;
                        base.offset = target;
                        self.offer(base);
                        self.offer(second);
                    },
                    None => {
                        base.offset = target;
                        self.offer(base);
                    },
                }
            },
            EmulationOutcome::Call { target, return_addr } => {
                base.call_stack.push(Frame { return_addr, caller: base.owning_function });
                base.owning_function = Some(target);
                base.offset = target;
                self.offer(base);
            },
            EmulationOutcome::Return { target } => {
                match unwind(&base.call_stack, target) {
                    Some(i) => {
                        let frame = base.call_stack[i];
                        base.call_stack.truncate(i);
                        assert(base.call_stack@ =~= item.call_stack@.take(i as int));
                        base.offset = frame.return_addr;
                        base.owning_function = frame.caller;
                        self.offer(base);
                    },
                    None => {},
                }
            },
            EmulationOutcome::IndirectUnresolved => {},
        }
    }

    /// Brings the function table up to date with one instruction.
    fn note(
        &mut self,
        item: &WorkItem,
        instr: &Instruction,
        cpu: &CpuState,
        outcome: EmulationOutcome,
    )
        requires
            old(self).functions.wf(),
        ensures
            final(self).functions.wf(),
            final(self).functions@ == bookkeeping(old(self).functions@, item@, *instr, *cpu, outcome),
            final(self).memory == old(self).memory,
            final(self).instr_info == old(self).instr_info,
            final(self).queue == old(self).queue,
            final(self).unresolved == old(self).unresolved,
            final(self).truncated == old(self).truncated,
            final(self).mode == old(self).mode,
    {
        match outcome {
            EmulationOutcome::Continue => {},
            EmulationOutcome::Branch { target, .. } => {
                match item.owning_function {
                    Some(f) => {
                        self.functions.add_jump(
                            f,
                            instr.address,
                            displacement(instr.next(), target),
                        );
                    },
                    None => {},
                }
            },
            EmulationOutcome::Call { target, .. } => {
                self.functions.add_xref(target, instr.address);
            },
            EmulationOutcome::Return { .. } => {
                match item.owning_function {
                    Some(f) => {
                        self.functions.add_return(f, instr.address);
                        if cpu.regs.eax.known {
                            self.functions.set_return_value(f, instr.address, cpu.regs.eax.value);
                        }
                    },
                    None => {},
                }
            },
            EmulationOutcome::IndirectUnresolved => {},
        }
    }

    /// Works in the decoder's answer `decoded` for `item`, which was taken
    /// from the queue before; `window` is the length of the window of bytes
    /// that the decoder was handed.
    ///
    /// An error, an instruction that does not start at the item's address or
    /// does not lie within the window, and an address that the instruction
    /// map already holds end the item's path: nothing changes. Else the
    /// instruction is recorded, emulated or classified, noted in the function
    /// table, and its successors are offered to the loop guard.
    pub fn advance(
        &mut self,
        item: WorkItem,
        window: usize,
        decoded: Result<Instruction, DecodeError>,
    )
        requires
            old(self).wf(),
            item.loop_state.wf(),
            has_cover(old(self)@.memory, item.offset, window as nat),
        ensures
            final(self).wf(),
            final(self)@ == old(self)@.advance(item@, window as nat, decoded),
    {
        broadcast use vstd::std_specs::btree::group_btree_axioms;

        proof {
            lemma_advance_wf(self@, item@, window as nat, decoded);
        }
        let instr = match decoded {
            Ok(instr) => instr,
            Err(_) => {
                return ;
            },
        };
        if !instr.fits(item.offset, window) || self.instr_info.contains_key(&item.offset) {
            return ;
        }
        let mut cpu = item.cpu;
        let outcome = if item.emulates() {
            cpu.apply(&instr, &mut self.memory)
        } else {
            classify(&instr)
        };
        self.note(&item, &instr, &cpu, outcome);
        match outcome {
            EmulationOutcome::IndirectUnresolved => {
                self.unresolved.push(item.offset);
            },
            _ => {},
        }
        let next = instr.next();
        let detail = match outcome {
            EmulationOutcome::Continue => Detail::Plain,
            EmulationOutcome::Branch { target, .. } => Detail::Target(target),
            EmulationOutcome::Call { target, .. } => Detail::Target(target),
            EmulationOutcome::Return { .. } => Detail::Plain,
            EmulationOutcome::IndirectUnresolved => Detail::Unresolved,
        };
        self.instr_info.insert(item.offset, InstructionInfo { instr, detail });
        assert(self@.queue =~= old(self)@.queue);
        self.follow(item, next, cpu, outcome);
    }

    /// One step of the traversal: takes the first item from the queue, asks
    /// the decoder for the instruction at its address and works the answer
    /// in. The answer says whether an item was there to take.
    pub fn step<D: Fn(&[u8], u64, Mode) -> Result<Instruction, DecodeError>>(
        &mut self,
        decoder: &D,
    ) -> (worked: bool)
        requires
            old(self).wf(),
            forall|b: &[u8], a: u64, m: Mode| decoder.requires((b, a, m)),
        ensures
            final(self).wf(),
            worked == (old(self)@.queue.len() > 0),
            !worked ==> final(self)@ == old(self)@,
            worked ==> exists|answer: Result<Instruction, DecodeError>|
                answered(old(self)@, *decoder, answer) && final(self)@ == old(self)@.step(answer),
    {
        let ghost before = self@;
        match self.queue.pop_front() {
            Some(item) => {
                assert(item@ == before.queue[0]);
                assert(self@.queue =~= before.queue.drop_first());
                assert(self@ == before.popped());
                proof {
                    lemma_step(before, Err(DecodeError::Invalid));
                    lemma_window_covered(before.memory, item.offset, MAX_INSTRUCTION_LEN as nat);
                }
                match self.memory.window(item.offset, MAX_INSTRUCTION_LEN) {
                    Ok(bytes) => {
                        let window: &[u8] = bytes.as_slice();
                        let answer = decoder(window, item.offset, self.mode);
                        let ghost given = answer;
                        assert(window@ == before.request()->Some_0);
                        assert(decoder.ensures((window, item.offset, before.mode), given));
                        assert(answered(before, *decoder, given));
                        proof {
                            lemma_step(before, given);
                        }
                        self.advance(item, bytes.len(), answer);
                        assert(self@ == before.step(given));
                    },
                    Err(_) => {
                        assert(answered(before, *decoder, Err(DecodeError::Invalid)));
                        assert(self@ == before.step(Err(DecodeError::Invalid)));
                    },
                }
                true
            },
            None => {
                assert(self@.queue =~= before.queue);
                false
            },
        }
    }

    /// Drains the queue: steps until no item is left. Every address is
    /// recorded at most once and every item that joins the queue follows a
    /// new record, so the queue does empty, whatever the decoder answers.
    pub fn run<D: Fn(&[u8], u64, Mode) -> Result<Instruction, DecodeError>>(&mut self, decoder: &D)
        requires
            old(self).wf(),
            forall|b: &[u8], a: u64, m: Mode| decoder.requires((b, a, m)),
        ensures
            final(self).wf(),
            final(self)@.queue.len() == 0,
            exists|answers: Seq<Result<Instruction, DecodeError>>|
                consistent(old(self)@, *decoder, answers) && final(self)@ == old(self)@.replay(
                    answers,
                ),
            same_layout(old(self)@.memory, final(self)@.memory),
            forall|a: u64| #[trigger]
                old(self)@.instructions.contains_key(a) ==> final(self)@.instructions.contains_key(
                    a,
                ) && final(self)@.instructions[a] == old(self)@.instructions[a],
            extends(old(self)@.functions, final(self)@.functions),
            final(self)@.mode == old(self)@.mode,
    {
        let ghost start = self@;
        let ghost mut answers: Seq<Result<Instruction, DecodeError>> = Seq::empty();
        proof {
            crate::memory::lemma_same_layout_covers(start.memory, start.memory, 0, 0);
        }
        while self.queue.len() > 0
            invariant
                self.wf(),
                forall|b: &[u8], a: u64, m: Mode| decoder.requires((b, a, m)),
                consistent(start, *decoder, answers),
                self@ == start.replay(answers),
                same_layout(start.memory, self@.memory),
                forall|a: u64| #[trigger]
                    start.instructions.contains_key(a) ==> self@.instructions.contains_key(a)
                        && self@.instructions[a] == start.instructions[a],
                extends(start.functions, self@.functions),
                self@.mode == start.mode,
            decreases self@.queue.len() + 2 * pending(self@).len(),
        {
            let ghost before = self@;
            self.step(decoder);
            proof {
                let answer = choose|answer: Result<Instruction, DecodeError>|
                    answered(before, *decoder, answer) && self@ == before.step(answer);
                lemma_step(before, answer);
                crate::memory::lemma_same_layout_trans(start.memory, before.memory, self@.memory);
                crate::replay::lemma_consistent_push(start, *decoder, answers, answer);
                answers = answers.push(answer);
            }
        }
    }
}

} // verus!
