//! What holds of every step of the traversal.

use vstd::prelude::*;
use vstd::set_lib::{lemma_int_range, set_int_range};
use crate::cpu::{CpuState, EmulationOutcome};
use crate::disasm::{DecodeError, Instruction, MAX_INSTRUCTION_LEN};
use crate::functions::{table_wf, FuncModel};
use crate::loops::lemma_visit_counts;
use crate::memory::{
    first_cover, has_cover, lemma_first_cover_exists, lemma_same_layout_covers,
    lemma_same_layout_trans, lemma_write_keeps_layout, same_layout, spec_window,
    RegionModel,
};
use crate::model::{bookkeeping, Detail, EngineModel, InstructionInfo, ItemModel};

verus! {

/// The addresses that the regions hold.
pub open spec fn covered(regions: Seq<RegionModel>) -> Set<int>
    decreases regions.len(),
{
    if regions.len() == 0 {
        Set::<int>::empty()
    } else {
        covered(regions.drop_last()).union(
            set_int_range(regions.last().base as int, regions.last().end()),
        )
    }
}

/// The addresses at which an instruction is recorded.
pub open spec fn decoded(instructions: Map<u64, InstructionInfo>) -> Set<int> {
    Set::new(|a: int| 0 <= a <= u64::MAX && instructions.contains_key(a as u64))
}

/// The addresses that some region holds and at which no instruction is
/// recorded yet.
pub open spec fn pending(e: EngineModel) -> Set<int> {
    covered(e.memory).difference(decoded(e.instructions))
}

/// Finitely many addresses are held by regions.
pub proof fn lemma_covered_finite(regions: Seq<RegionModel>)
    ensures
        covered(regions).finite(),
    decreases regions.len(),
{
    if regions.len() > 0 {
        lemma_covered_finite(regions.drop_last());
        lemma_int_range(regions.last().base as int, regions.last().end());
    }
}

/// An address that a region holds is among the covered ones.
pub proof fn lemma_covered_has(regions: Seq<RegionModel>, a: u64)
    requires
        has_cover(regions, a, 1),
    ensures
        covered(regions).contains(a as int),
    decreases regions.len(),
{
    let i = choose|i: int| 0 <= i < regions.len() && (#[trigger] regions[i]).covers(a, 1);
    if i == regions.len() - 1 {
        assert(set_int_range(regions.last().base as int, regions.last().end()).contains(a as int));
    } else {
        assert(regions.drop_last()[i].covers(a, 1));
        lemma_covered_has(regions.drop_last(), a);
    }
}

/// Regions of one layout hold the same addresses.
pub proof fn lemma_covered_layout(before: Seq<RegionModel>, after: Seq<RegionModel>)
    requires
        same_layout(before, after),
    ensures
        covered(before) == covered(after),
    decreases before.len(),
{
    if before.len() > 0 {
        assert(same_layout(before.drop_last(), after.drop_last())) by {
            assert forall|i: int| 0 <= i < before.drop_last().len() implies {
                &&& (#[trigger] after.drop_last()[i]).base == before.drop_last()[i].base
                &&& after.drop_last()[i].kind == before.drop_last()[i].kind
                &&& after.drop_last()[i].writable == before.drop_last()[i].writable
                &&& after.drop_last()[i].bytes.len() == before.drop_last()[i].bytes.len()
            } by {
                assert(after[i].base == before[i].base);
            }
        }
        lemma_covered_layout(before.drop_last(), after.drop_last());
        assert(after[before.len() - 1].base == before[before.len() - 1].base);
    }
}

/// A window that starts at `a` lies within one region and is not empty.
pub proof fn lemma_window_covered(regions: Seq<RegionModel>, a: u64, max: nat)
    requires
        max >= 1,
    ensures
        spec_window(regions, a, max) matches Ok(w) ==> 1 <= w.len() <= max && has_cover(
            regions,
            a,
            w.len(),
        ),
{
    if has_cover(regions, a, 1) {
        lemma_first_cover_exists(regions, a, 1);
        let i = first_cover(regions, a, 1);
        let w = spec_window(regions, a, max)->Ok_0;
        assert(regions[i].covers(a, w.len()));
    }
}

/// A range within a covered range is covered.
pub proof fn lemma_cover_shrinks(regions: Seq<RegionModel>, a: u64, long: nat, short: nat)
    requires
        has_cover(regions, a, long),
        short <= long,
    ensures
        has_cover(regions, a, short),
{
    let i = choose|i: int| 0 <= i < regions.len() && (#[trigger] regions[i]).covers(a, long);
    assert(regions[i].covers(a, short));
}

/// Emulation writes bytes only: the regions keep their layout.
pub proof fn lemma_apply_layout(cpu: CpuState, mem: Seq<RegionModel>, instr: Instruction)
    ensures
        same_layout(mem, cpu.spec_apply(mem, instr).1),
{
    let (cpu1, mem1) = cpu.spec_execute(mem, instr.operation);
    assert(same_layout(mem, mem1)) by {
        lemma_push_layout(cpu, mem, cpu.spec_eval(instr.operation->Push_src));
    }
    let mem2 = cpu.spec_apply(mem, instr).1;
    assert(same_layout(mem1, mem2)) by {
        lemma_push_layout(cpu1, mem1, crate::cpu::RegValue::spec_known(instr.spec_next()));
    }
    lemma_same_layout_trans(mem, mem1, mem2);
}

/// A push writes bytes only.
pub proof fn lemma_push_layout(cpu: CpuState, mem: Seq<RegionModel>, value: crate::cpu::RegValue)
    ensures
        same_layout(mem, mem),
        same_layout(mem, cpu.spec_push(mem, value).1),
{
    let top = crate::cpu::wrap(
        cpu.regs.esp.value - crate::cpu::word_len(cpu.address_size),
        cpu.address_size,
    );
    lemma_write_keeps_layout(
        mem,
        top,
        crate::memory::le_bytes(value.value as nat, crate::cpu::word_len(cpu.address_size)),
    );
}

/// The outcome of an instruction goes with its control-flow class, and its
/// emulation keeps the layout of the regions.
pub proof fn lemma_outcome(e: EngineModel, item: ItemModel, instr: Instruction)
    ensures
        same_layout(e.memory, e.outcome_of(item, instr).1),
        e.outcome_of(item, instr).2 is Call ==> instr.flow is Call,
        e.outcome_of(item, instr).2 is Return ==> instr.flow is Return,
        instr.flow is Call ==> e.outcome_of(item, instr).2 is Call || e.outcome_of(
            item,
            instr,
        ).2 is IndirectUnresolved,
        instr.flow is Return ==> e.outcome_of(item, instr).2 is Return,
{
    lemma_apply_layout(item.cpu, e.memory, instr);
}

/// The function table only grows: no function leaves it, and no function
/// loses a call site or a return.
pub open spec fn extends(before: Map<u64, FuncModel>, after: Map<u64, FuncModel>) -> bool {
    forall|f: u64| #[trigger]
        before.contains_key(f) ==> after.contains_key(f) && before[f].xrefs.subset_of(
            after[f].xrefs,
        ) && before[f].returns.subset_of(after[f].returns)
}

/// What the bookkeeping of one instruction does to the function table: it
/// only grows; a call is noted at its callee; and nothing else is noted
/// than this call or this return.
pub proof fn lemma_bookkeeping(
    functions: Map<u64, FuncModel>,
    item: ItemModel,
    instr: Instruction,
    cpu: CpuState,
    outcome: EmulationOutcome,
)
    requires
        table_wf(functions),
    ensures
        table_wf(bookkeeping(functions, item, instr, cpu, outcome)),
        extends(functions, bookkeeping(functions, item, instr, cpu, outcome)),
        outcome matches EmulationOutcome::Call { target, .. } ==> bookkeeping(
            functions,
            item,
            instr,
            cpu,
            outcome,
        ).contains_key(target) && bookkeeping(functions, item, instr, cpu, outcome)[target].xrefs.contains(
            instr.address,
        ),
        forall|f: u64, a: u64|
            bookkeeping(functions, item, instr, cpu, outcome).contains_key(f) && (
            #[trigger] bookkeeping(functions, item, instr, cpu, outcome)[f].xrefs.contains(a))
                ==> (functions.contains_key(f) && functions[f].xrefs.contains(a)) || (a
                == instr.address && outcome is Call && outcome->Call_target == f),
        forall|f: u64, a: u64|
            bookkeeping(functions, item, instr, cpu, outcome).contains_key(f) && (
            #[trigger] bookkeeping(functions, item, instr, cpu, outcome)[f].returns.contains(a))
                ==> (functions.contains_key(f) && functions[f].returns.contains(a)) || (a
                == instr.address && outcome is Return),
{
}

/// Offering a successor touches the queue and the count of truncations
/// only, and keeps the invariant.
pub proof fn lemma_offer(e: EngineModel, s: ItemModel)
    requires
        e.wf(),
        s.loops.wf(),
    ensures
        e.offer(s).wf(),
        e.offer(s).memory == e.memory,
        e.offer(s).instructions == e.instructions,
        e.offer(s).functions == e.functions,
        e.offer(s).unresolved == e.unresolved,
        e.offer(s).mode == e.mode,
        e.queue.len() <= e.offer(s).queue.len() <= e.queue.len() + 1,
{
    lemma_visit_counts(s.loops, s.offset, s.offset);
    let after = e.offer(s);
    assert forall|a: u64| #[trigger] after.instructions.contains_key(a) implies after.placed(
        a,
    ) by {
        assert(e.placed(a));
    }
    assert forall|a: u64| #[trigger] after.instructions.contains_key(a) implies after.call_noted(
        a,
    ) by {
        assert(e.call_noted(a));
    }
    assert forall|f: u64| #[trigger] after.functions.contains_key(f) implies after.backed(f) by {
        assert(e.backed(f));
    }
}

/// Offering the successors of an instruction touches the queue and the
/// count of truncations only, and keeps the invariant.
pub proof fn lemma_follow(
    e: EngineModel,
    item: ItemModel,
    next: u64,
    cpu: CpuState,
    outcome: EmulationOutcome,
)
    requires
        e.wf(),
        item.loops.wf(),
    ensures
        e.follow(item, next, cpu, outcome).wf(),
        e.follow(item, next, cpu, outcome).memory == e.memory,
        e.follow(item, next, cpu, outcome).instructions == e.instructions,
        e.follow(item, next, cpu, outcome).functions == e.functions,
        e.follow(item, next, cpu, outcome).unresolved == e.unresolved,
        e.follow(item, next, cpu, outcome).mode == e.mode,
        e.queue.len() <= e.follow(item, next, cpu, outcome).queue.len() <= e.queue.len() + 2,
{
    let base = ItemModel { cpu, ..item };
    match outcome {
        EmulationOutcome::Continue => {
            lemma_offer(e, ItemModel { offset: next, ..base });
        },
        EmulationOutcome::Branch { target, fallthrough } => {
            lemma_offer(e, ItemModel { offset: target, ..base });
            let taken = e.offer(ItemModel { offset: target, ..base });
            match fallthrough {
                Some(other) => {
                    lemma_offer(taken, ItemModel { offset: other, ..base });
                },
                None => {},
            }
        },
        EmulationOutcome::Call { target, return_addr } => {
            lemma_offer(
                e,
                ItemModel {
                    offset: target,
                    call_stack: item.call_stack.push(
                        crate::model::Frame { return_addr, caller: item.owning_function },
                    ),
                    owning_function: Some(target),
                    ..base
                },
            );
        },
        EmulationOutcome::Return { target } => {
            match crate::model::spec_unwind(item.call_stack, target) {
                Some(i) => {
                    lemma_offer(
                        e,
                        ItemModel {
                            offset: item.call_stack[i].return_addr,
                            call_stack: item.call_stack.take(i),
                            owning_function: item.call_stack[i].caller,
                            ..base
                        },
                    );
                },
                None => {},
            }
        },
        EmulationOutcome::IndirectUnresolved => {},
    }
}

/// The engine between the recording of an instruction and the offering of
/// its successors.
pub open spec fn recorded(e: EngineModel, item: ItemModel, instr: Instruction) -> EngineModel {
    let (cpu, memory, outcome) = e.outcome_of(item, instr);
    EngineModel {
        memory,
        instructions: e.instructions.insert(
            item.offset,
            InstructionInfo { instr, detail: crate::model::detail_of(outcome) },
        ),
        functions: bookkeeping(e.functions, item, instr, cpu, outcome),
        unresolved: if outcome is IndirectUnresolved {
            e.unresolved.push(item.offset)
        } else {
            e.unresolved
        },
        ..e
    }
}

/// Recording an instruction keeps the invariant.
pub proof fn lemma_recorded_wf(e: EngineModel, item: ItemModel, window: nat, instr: Instruction)
    requires
        e.wf(),
        has_cover(e.memory, item.offset, window),
        e.accepts(item, window, Ok(instr)),
    ensures
        recorded(e, item, instr).wf(),
{
    let (cpu, memory, outcome) = e.outcome_of(item, instr);
    let r = recorded(e, item, instr);
    lemma_outcome(e, item, instr);
    lemma_bookkeeping(e.functions, item, instr, cpu, outcome);
    lemma_same_layout_covers(e.memory, memory, item.offset, 0);
    assert forall|a: u64| #[trigger] r.instructions.contains_key(a) implies r.placed(a) by {
        if a == item.offset {
            lemma_cover_shrinks(e.memory, a, window, instr.size as nat);
            lemma_same_layout_covers(e.memory, memory, a, instr.size as nat);
        } else {
            assert(e.placed(a));
            lemma_same_layout_covers(e.memory, memory, a, e.instructions[a].instr.size as nat);
        }
    }
    assert forall|a: u64| #[trigger] r.instructions.contains_key(a) implies r.call_noted(a) by {
        if a != item.offset {
            assert(e.instructions.contains_key(a));
            assert(e.call_noted(a));
            if e.instructions[a].instr.flow is Call {
                if let Detail::Target(t) = e.instructions[a].detail {
                    assert(e.functions.contains_key(t));
                    assert(e.functions[t].xrefs.subset_of(r.functions[t].xrefs));
                }
            }
        }
    }
    assert forall|f: u64| #[trigger] r.functions.contains_key(f) implies r.backed(f) by {
        assert forall|a: u64| #[trigger] r.functions[f].xrefs.contains(a) implies r.instructions.contains_key(
            a,
        ) && r.instructions[a].instr.flow is Call && r.instructions[a].detail == Detail::Target(
            f,
        ) by {
            if e.functions.contains_key(f) && e.functions[f].xrefs.contains(a) {
                assert(e.backed(f));
                assert(a != item.offset);
            }
        }
        assert forall|a: u64| #[trigger] r.functions[f].returns.contains(a) implies r.instructions.contains_key(
            a,
        ) && r.instructions[a].instr.flow is Return by {
            if e.functions.contains_key(f) && e.functions[f].returns.contains(a) {
                assert(e.backed(f));
                assert(a != item.offset);
            }
        }
    }
}

/// Taking an answer in keeps the invariant.
pub proof fn lemma_advance_wf(
    e: EngineModel,
    item: ItemModel,
    window: nat,
    decoded: Result<Instruction, DecodeError>,
)
    requires
        e.wf(),
        item.loops.wf(),
        has_cover(e.memory, item.offset, window),
    ensures
        e.advance(item, window, decoded).wf(),
        same_layout(e.memory, e.advance(item, window, decoded).memory),
        e.advance(item, window, decoded).mode == e.mode,
{
    if e.accepts(item, window, decoded) {
        let instr = decoded->Ok_0;
        let (cpu, memory, outcome) = e.outcome_of(item, instr);
        lemma_recorded_wf(e, item, window, instr);
        lemma_outcome(e, item, instr);
        lemma_follow(recorded(e, item, instr), item, instr.spec_next(), cpu, outcome);
    } else {
        lemma_same_layout_covers(e.memory, e.memory, 0, 0);
    }
}

/// Monotonicity: what the instruction map holds before an answer is taken
/// in, it holds unchanged afterwards; and where the answer is taken, the
/// map gains the item's address.
pub proof fn lemma_advance_monotone(
    e: EngineModel,
    item: ItemModel,
    window: nat,
    decoded: Result<Instruction, DecodeError>,
)
    requires
        e.wf(),
        item.loops.wf(),
    ensures
        forall|a: u64| #[trigger]
            e.instructions.contains_key(a) ==> e.advance(
                item,
                window,
                decoded,
            ).instructions.contains_key(a) && e.advance(item, window, decoded).instructions[a]
                == e.instructions[a],
        e.accepts(item, window, decoded) ==> e.advance(item, window, decoded).instructions
            == e.instructions.insert(
            item.offset,
            e.advance(item, window, decoded).instructions[item.offset],
        ) && e.advance(item, window, decoded).instructions[item.offset].instr == decoded->Ok_0,
        !e.accepts(item, window, decoded) ==> e.advance(item, window, decoded) == e,
        extends(e.functions, e.advance(item, window, decoded).functions),
{
    if e.accepts(item, window, decoded) {
        let instr = decoded->Ok_0;
        let (cpu, memory, outcome) = e.outcome_of(item, instr);
        lemma_bookkeeping(e.functions, item, instr, cpu, outcome);
        lemma_follow_keeps(e, item, instr);
    }
}

/// Offering successors leaves what was recorded as it is, whatever the
/// state of the engine.
pub proof fn lemma_follow_keeps(e: EngineModel, item: ItemModel, instr: Instruction)
    ensures
        ({
            let (cpu, memory, outcome) = e.outcome_of(item, instr);
            let r = recorded(e, item, instr);
            &&& r.follow(item, instr.spec_next(), cpu, outcome).instructions == r.instructions
            &&& r.follow(item, instr.spec_next(), cpu, outcome).functions == r.functions
            &&& r.follow(item, instr.spec_next(), cpu, outcome).memory == r.memory
            &&& r.follow(item, instr.spec_next(), cpu, outcome).unresolved == r.unresolved
        }),
{
}

/// Taking an answer in leaves fewer addresses to decode; an answer that is
/// not taken changes nothing.
pub proof fn lemma_advance_measure(
    e: EngineModel,
    item: ItemModel,
    window: nat,
    decoded: Result<Instruction, DecodeError>,
)
    requires
        e.wf(),
        item.loops.wf(),
        has_cover(e.memory, item.offset, window),
    ensures
        pending(e).finite(),
        e.accepts(item, window, decoded) ==> pending(e.advance(item, window, decoded)).len()
            < pending(e).len() && e.advance(item, window, decoded).queue.len() <= e.queue.len()
            + 2,
        !e.accepts(item, window, decoded) ==> e.advance(item, window, decoded) == e,
{
    lemma_covered_finite(e.memory);
    if e.accepts(item, window, decoded) {
        let instr = decoded->Ok_0;
        let after = e.advance(item, window, decoded);
        let (cpu, memory, outcome) = e.outcome_of(item, instr);
        lemma_follow_keeps(e, item, instr);
        lemma_recorded_wf(e, item, window, instr);
        lemma_follow(recorded(e, item, instr), item, instr.spec_next(), cpu, outcome);
        lemma_outcome(e, item, instr);
        lemma_covered_layout(e.memory, after.memory);
        lemma_cover_shrinks(e.memory, item.offset, window, 1);
        lemma_covered_has(e.memory, item.offset);
        assert(pending(after) =~= pending(e).remove(item.offset as int));
        assert(pending(e).contains(item.offset as int));
    }
}

/// A step keeps the invariant and the layout of the regions, loses nothing
/// that was recorded, and brings the traversal nearer to its end: the
/// length of the queue plus twice the number of addresses left to decode
/// goes down.
pub proof fn lemma_step(e: EngineModel, answer: Result<Instruction, DecodeError>)
    requires
        e.wf(),
        e.queue.len() > 0,
    ensures
        e.step(answer).wf(),
        same_layout(e.memory, e.step(answer).memory),
        e.step(answer).mode == e.mode,
        pending(e).finite(),
        e.step(answer).queue.len() + 2 * pending(e.step(answer)).len() < e.queue.len() + 2
            * pending(e).len(),
        forall|a: u64| #[trigger]
            e.instructions.contains_key(a) ==> e.step(answer).instructions.contains_key(a)
                && e.step(answer).instructions[a] == e.instructions[a],
        extends(e.functions, e.step(answer).functions),
{
    let item = e.queue[0];
    let rest = e.popped();
    assert(rest.wf()) by {
        assert forall|i: int| 0 <= i < rest.queue.len() implies (
        #[trigger] rest.queue[i]).loops.wf() by {
            assert(rest.queue[i] == e.queue[i + 1]);
        }
        assert forall|a: u64| #[trigger] rest.instructions.contains_key(a) implies rest.placed(
            a,
        ) by {
            assert(e.placed(a));
        }
        assert forall|a: u64| #[trigger] rest.instructions.contains_key(
            a,
        ) implies rest.call_noted(a) by {
            assert(e.call_noted(a));
        }
        assert forall|f: u64| #[trigger] rest.functions.contains_key(f) implies rest.backed(
            f,
        ) by {
            assert(e.backed(f));
        }
    }
    assert(pending(rest) == pending(e));
    lemma_covered_finite(e.memory);
    lemma_same_layout_covers(e.memory, e.memory, 0, 0);
    match e.request() {
        Some(w) => {
            lemma_window_covered(e.memory, item.offset, MAX_INSTRUCTION_LEN as nat);
            lemma_advance_wf(rest, item, w.len(), answer);
            lemma_advance_measure(rest, item, w.len(), answer);
            lemma_advance_monotone(rest, item, w.len(), answer);
        },
        None => {},
    }
}

/// A return finds its call: after a call pushed its frame, a return that
/// the emulator read no address for, or the address of that call's return,
/// unwinds to that frame. Control goes on behind the call, in the function
/// that made it, with the call stack that it had.
pub proof fn lemma_return_finds_call(
    stack: Seq<crate::model::Frame>,
    return_addr: u64,
    caller: Option<u64>,
    target: Option<u64>,
)
    requires
        target is None || target == Some(return_addr),
    ensures
        crate::model::spec_unwind(
            stack.push(crate::model::Frame { return_addr, caller }),
            target,
        ) == Some(stack.len() as int),
        stack.push(crate::model::Frame { return_addr, caller })[stack.len() as int].caller
            == caller,
        stack.push(crate::model::Frame { return_addr, caller })[stack.len() as int].return_addr
            == return_addr,
        stack.push(crate::model::Frame { return_addr, caller }).take(stack.len() as int) == stack,
{
    let pushed = stack.push(crate::model::Frame { return_addr, caller });
    assert(pushed.take(stack.len() as int) =~= stack);
    assert(pushed.last().return_addr == return_addr);
}

} // verus!
