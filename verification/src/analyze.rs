//! The analysis of a buffer: set-up, the traversal passes, and what follows
//! them.

use vstd::prelude::*;
use std::collections::BTreeMap;
use crate::configuration::Config;
use crate::cpu::{word_bytes, word_len};
use crate::disasm::{Arch, DecodeError, Flow, Instruction, Mode, Target, Xori};
use crate::engine::Engine;
use crate::functions::{fresh, spec_add_xref, spec_rename, FuncModel, FunctionTable};
use crate::header::{BinaryType, Header, spec_identify, spec_parse_header, spec_parse_result};
use crate::image::{
    add_stack, map_image, offset, seed_item, spec_entry, spec_memory, spec_offset, spec_seed,
};
use crate::laws::extends;
use crate::memory::{
    lemma_same_layout_covers, same_layout, spec_read_word, AddressSpace, RegionModel,
};
use crate::model::{AnalysisType, Detail, EngineModel, InstructionInfo, ItemModel};
use crate::replay::consistent;

verus! {

/// A name that the signature matcher gives to the function at an address.
#[derive(Debug, Clone, PartialEq, Eq)]
pub struct Rename {
    pub address: u64,
    pub name: String,
}

/// What an analysis found: the instruction map and the function table, with
/// the header that the analysis went by.
#[derive(Debug)]
pub struct AnalysisResult {
    pub xi: Xori,
    pub base: u64,
    pub header: Header,
    pub instr_info: BTreeMap<u64, InstructionInfo>,
    pub functions: FunctionTable,
    /// Addresses of the transfers that were recorded but not followed.
    pub unresolved: Vec<u64>,
    /// How many successors the loop guard turned away.
    pub truncated: usize,
}

impl AnalysisResult {
    /// The result as an engine at rest over the regions `memory`.
    pub open spec fn model(&self, memory: Seq<RegionModel>) -> EngineModel {
        EngineModel {
            mode: self.xi.mode,
            memory,
            instructions: self.instr_info@,
            functions: self.functions@,
            queue: Seq::<ItemModel>::empty(),
            unresolved: self.unresolved@,
            truncated: self.truncated,
        }
    }
}

/// Every instruction of `first` stands in `later`, at its address.
pub open spec fn keeps(first: Map<u64, InstructionInfo>, later: Map<u64, InstructionInfo>) -> bool {
    forall|a: u64| #[trigger]
        first.contains_key(a) ==> later.contains_key(a) && later[a].instr == first[a].instr
}

/// The function table after the names `names` were given, in their order.
pub open spec fn spec_apply_names(table: Map<u64, FuncModel>, names: Seq<Rename>) -> Map<
    u64,
    FuncModel,
>
    decreases names.len(),
{
    if names.len() == 0 {
        table
    } else {
        spec_rename(
            spec_apply_names(table, names.drop_last()),
            names.last().address,
            names.last().name@,
        )
    }
}

/// Names change nothing but names: the invariant holds on, no function
/// comes or goes, and no call site or return is lost.
pub proof fn lemma_apply_names(e: EngineModel, names: Seq<Rename>)
    requires
        e.wf(),
    ensures
        (EngineModel { functions: spec_apply_names(e.functions, names), ..e }).wf(),
        spec_apply_names(e.functions, names).dom() == e.functions.dom(),
        extends(e.functions, spec_apply_names(e.functions, names)),
        forall|f: u64| #[trigger]
            e.functions.contains_key(f) ==> spec_apply_names(e.functions, names)[f].xrefs
                == e.functions[f].xrefs && spec_apply_names(e.functions, names)[f].returns
                == e.functions[f].returns,
    decreases names.len(),
{
    if names.len() > 0 {
        lemma_apply_names(e, names.drop_last());
        let before = spec_apply_names(e.functions, names.drop_last());
        let after = spec_apply_names(e.functions, names);
        let mid = EngineModel { functions: before, ..e };
        let end = EngineModel { functions: after, ..e };
        assert(after.dom() =~= before.dom());
        assert forall|a: u64| #[trigger] end.instructions.contains_key(a) implies end.placed(
            a,
        ) by {
            assert(mid.placed(a));
        }
        assert forall|a: u64| #[trigger] end.instructions.contains_key(a) implies end.call_noted(
            a,
        ) by {
            assert(mid.call_noted(a));
        }
        assert forall|f: u64| #[trigger] end.functions.contains_key(f) implies end.backed(f) by {
            assert(mid.functions.contains_key(f));
            assert(mid.backed(f));
        }
    } else {
        assert((EngineModel { functions: spec_apply_names(e.functions, names), ..e }) == e);
    }
}

/// Gives the functions the names `names`, in their order. A name for an
/// address that the table does not hold is passed over.
pub fn apply_names(table: &mut FunctionTable, names: &Vec<Rename>)
    requires
        old(table).wf(),
    ensures
        final(table).wf(),
        final(table)@ == spec_apply_names(old(table)@, names@),
{
    let n: usize = names.len();
    let mut i: usize = 0;
    assert(names@.take(0) =~= Seq::<Rename>::empty());
    while i < n
        invariant
            i <= n,
            n == names@.len(),
            table.wf(),
            table@ == spec_apply_names(old(table)@, names@.take(i as int)),
        decreases n - i,
    {
        assert(names@.take(i + 1).drop_last() =~= names@.take(i as int));
        assert(names@.take(i + 1).last() == names@[i as int]);
        let name = names[i].name.clone();
        table.rename(names[i].address, name);
        i += 1;
    }
    assert(names@.take(n as int) =~= names@);
}

/// The callee that is inferred for the call at `site`: the call was left
/// unresolved, it goes through a memory word, and that word holds the
/// address of a recorded instruction.
pub open spec fn inferred_target(e: EngineModel, site: u64) -> Option<u64> {
    if e.instructions.contains_key(site) && e.instructions[site].detail == Detail::Unresolved {
        match e.instructions[site].instr.flow {
            Flow::Call(Target::Mem(slot)) => match spec_read_word(
                e.memory,
                slot,
                word_len(e.mode.spec_size()),
            ) {
                Some(t) => if e.instructions.contains_key(t) {
                    Some(t)
                } else {
                    None
                },
                None => None,
            },
            _ => None,
        }
    } else {
        None
    }
}

/// The engine after the callee of the call at `site` was inferred, where
/// one can be: the call is noted at the callee and the target at the call.
pub open spec fn infer(e: EngineModel, site: u64) -> EngineModel {
    match inferred_target(e, site) {
        Some(t) => EngineModel {
            instructions: e.instructions.insert(
                site,
                InstructionInfo { instr: e.instructions[site].instr, detail: Detail::Target(t) },
            ),
            functions: spec_add_xref(e.functions, t, site),
            ..e
        },
        None => e,
    }
}

/// The engine after the callees of the calls at `sites` were inferred, in
/// their order.
pub open spec fn infer_all(e: EngineModel, sites: Seq<u64>) -> EngineModel
    decreases sites.len(),
{
    if sites.len() == 0 {
        e
    } else {
        infer(infer_all(e, sites.drop_last()), sites.last())
    }
}

/// Inferring a callee keeps the invariant; it touches no instruction but
/// in its note, and the function table only grows.
pub proof fn lemma_infer(e: EngineModel, site: u64)
    requires
        e.wf(),
    ensures
        infer(e, site).wf(),
        infer(e, site).memory == e.memory,
        infer(e, site).queue == e.queue,
        infer(e, site).unresolved == e.unresolved,
        infer(e, site).mode == e.mode,
        infer(e, site).instructions.dom() == e.instructions.dom(),
        keeps(e.instructions, infer(e, site).instructions),
        extends(e.functions, infer(e, site).functions),
{
    let after = infer(e, site);
    match inferred_target(e, site) {
        Some(t) => {
            assert(after.instructions.dom() =~= e.instructions.dom());
            assert forall|a: u64| #[trigger] after.instructions.contains_key(
                a,
            ) implies after.placed(a) by {
                assert(e.placed(a));
            }
            assert forall|a: u64| #[trigger] after.instructions.contains_key(
                a,
            ) implies after.call_noted(a) by {
                assert(e.call_noted(a));
            }
            assert forall|f: u64| #[trigger] after.functions.contains_key(f) implies after.backed(
                f,
            ) by {
                if e.functions.contains_key(f) {
                    assert(e.backed(f));
                }
                assert forall|a: u64| #[trigger]
                    after.functions[f].xrefs.contains(a) implies after.instructions.contains_key(
                    a,
                ) && after.instructions[a].instr.flow is Call && after.instructions[a].detail
                    == Detail::Target(f) by {
                    if e.functions.contains_key(f) && e.functions[f].xrefs.contains(a) {
                        assert(a != site);
                    }
                }
                assert forall|a: u64| #[trigger]
                    after.functions[f].returns.contains(a) implies after.instructions.contains_key(
                    a,
                ) && after.instructions[a].instr.flow is Return by {
                    assert(e.functions.contains_key(f) && e.functions[f].returns.contains(a));
                }
            }
        },
        None => {},
    }
}

/// What holds of one inference holds of many.
pub proof fn lemma_infer_all(e: EngineModel, sites: Seq<u64>)
    requires
        e.wf(),
    ensures
        infer_all(e, sites).wf(),
        infer_all(e, sites).memory == e.memory,
        infer_all(e, sites).queue == e.queue,
        infer_all(e, sites).unresolved == e.unresolved,
        infer_all(e, sites).mode == e.mode,
        infer_all(e, sites).instructions.dom() == e.instructions.dom(),
        keeps(e.instructions, infer_all(e, sites).instructions),
        extends(e.functions, infer_all(e, sites).functions),
    decreases sites.len(),
{
    if sites.len() > 0 {
        lemma_infer_all(e, sites.drop_last());
        lemma_infer(infer_all(e, sites.drop_last()), sites.last());
    }
}

/// Infers the callee of one unresolved call.
fn infer_one(engine: &mut Engine, site: u64)
    requires
        old(engine).wf(),
    ensures
        final(engine).wf(),
        final(engine)@ == infer(old(engine)@, site),
{
    broadcast use vstd::std_specs::btree::group_btree_axioms;

    proof {
        lemma_infer(engine@, site);
    }
    let slot = match engine.instr_info.get(&site) {
        Some(info) => match info.detail {
            Detail::Unresolved => match info.instr.flow {
                Flow::Call(Target::Mem(slot)) => Some(slot),
                _ => None,
            },
            _ => None,
        },
        None => None,
    };
    let target = match slot {
        Some(slot) => engine.memory.read_word(slot, word_bytes(engine.mode.get_size())),
        None => None,
    };
    match target {
        Some(t) => {
            if engine.instr_info.contains_key(&t) {
                match engine.instr_info.remove(&site) {
                    Some(info) => {
                        let mut info = info;
                        info.detail = Detail::Target(t);
                        engine.instr_info.insert(site, info);
                        engine.functions.add_xref(t, site);
                        assert(engine@.queue =~= old(engine)@.queue);
                        assert(engine@.instructions =~= infer(old(engine)@, site).instructions);
                    },
                    None => {},
                }
            }
        },
        None => {},
    }
}

/// Infers the callees of the calls that were left unresolved: a call
/// through a memory word that holds the address of a recorded instruction
/// goes to that instruction.
pub fn infer_indirect_calls(engine: &mut Engine)
    requires
        old(engine).wf(),
    ensures
        final(engine).wf(),
        final(engine)@ == infer_all(old(engine)@, old(engine)@.unresolved),
{
    let n: usize = engine.unresolved.len();
    let mut i: usize = 0;
    let ghost sites = engine@.unresolved;
    assert(sites.take(0) =~= Seq::<u64>::empty());
    while i < n
        invariant
            i <= n,
            n == sites.len(),
            engine.wf(),
            engine@.unresolved == sites,
            engine@ == infer_all(old(engine)@, sites.take(i as int)),
        decreases n - i,
    {
        assert(sites.take(i + 1).drop_last() =~= sites.take(i as int));
        assert(sites.take(i + 1).last() == sites[i as int]);
        proof {
            lemma_infer(engine@, sites[i as int]);
        }
        let site = engine.unresolved[i];
        infer_one(engine, site);
        i += 1;
    }
    assert(sites.take(n as int) =~= sites);
}

/// The engine that the first pass starts from: the regions of image and
/// stack, the function `EntryPoint` at the entry point, and one work item
/// there.
pub open spec fn spec_start(header: Header, binary: Seq<u8>, config: Config) -> EngineModel {
    let entry = spec_entry(header);
    EngineModel {
        mode: header.mode,
        memory: spec_memory(header, binary, config)->Some_0,
        instructions: Map::<u64, InstructionInfo>::empty(),
        functions: Map::<u64, FuncModel>::empty().insert(
            entry,
            FuncModel { name: "EntryPoint"@, ..fresh(entry) },
        ),
        queue: seq![spec_seed(header, config, entry, Some(entry), AnalysisType::Code)],
        unresolved: Seq::<u64>::empty(),
        truncated: 0,
    }
}

/// `first` is what a run of the traversal from `start` to an empty queue
/// gives, with answers that the decoder may have given.
#[verifier::opaque]
pub open spec fn first_pass<D: Fn(&[u8], u64, Mode) -> Result<Instruction, DecodeError>>(
    start: EngineModel,
    decoder: D,
    first: EngineModel,
) -> bool {
    exists|answers: Seq<Result<Instruction, DecodeError>>|
        #[trigger] consistent(start, decoder, answers) && first == start.replay(answers)
            && first.queue.len() == 0
}

/// `after` is what one more pass gives: a run from `before` with `seed` in
/// its queue to an empty queue.
pub open spec fn pass_from<D: Fn(&[u8], u64, Mode) -> Result<Instruction, DecodeError>>(
    before: EngineModel,
    seed: ItemModel,
    decoder: D,
    after: EngineModel,
) -> bool {
    first_pass(before.seeded(seed), decoder, after)
}

/// The work item that the pass from the start of code is seeded with.
pub open spec fn spec_code_seed(header: Header, config: Config) -> ItemModel {
    spec_seed(
        header,
        config,
        spec_offset(header.image_base, header.base_of_code),
        None,
        AnalysisType::Data,
    )
}

/// The work item that the pass from the start of data is seeded with.
pub open spec fn spec_data_seed(header: Header, config: Config) -> ItemModel {
    spec_seed(
        header,
        config,
        spec_offset(header.image_base, header.base_of_data),
        None,
        AnalysisType::Data,
    )
}

/// The passes lead from `start` over `first` and `second` to `end`: with
/// emulation there is one pass; without, one from the start of code and
/// one from the start of data follow it.
pub open spec fn chain<D: Fn(&[u8], u64, Mode) -> Result<Instruction, DecodeError>>(
    start: EngineModel,
    header: Header,
    config: Config,
    decoder: D,
    first: EngineModel,
    second: EngineModel,
    end: EngineModel,
) -> bool {
    &&& first_pass(start, decoder, first)
    &&& if config.x86.emulation_enabled {
        second == first && end == first
    } else {
        pass_from(first, spec_code_seed(header, config), decoder, second) && pass_from(
            second,
            spec_data_seed(header, config),
            decoder,
            end,
        )
    }
}

/// `end` is what the passes of the traversal make of `start`.
#[verifier::opaque]
pub open spec fn passes<D: Fn(&[u8], u64, Mode) -> Result<Instruction, DecodeError>>(
    start: EngineModel,
    header: Header,
    config: Config,
    decoder: D,
    end: EngineModel,
) -> bool {
    exists|first: EngineModel, second: EngineModel| #[trigger]
        chain(start, header, config, decoder, first, second, end)
}

/// The engine with the names `names` given to its functions.
pub open spec fn named(e: EngineModel, names: Seq<Rename>) -> EngineModel {
    EngineModel { functions: spec_apply_names(e.functions, names), ..e }
}

/// The matcher may have given the names `names` for the function table and
/// the address space of `e`.
pub open spec fn matched<M: Fn(&FunctionTable, &AddressSpace) -> Vec<Rename>>(
    e: EngineModel,
    matcher: M,
    names: Vec<Rename>,
) -> bool {
    exists|table: FunctionTable, space: AddressSpace|
        table@ == e.functions && space@ == e.memory && #[trigger] matcher.ensures(
            (&table, &space),
            names,
        )
}

/// `done` is what the work after the passes makes of `passed`: the names
/// of the matcher are given where the options ask for them, then the
/// callees of the unresolved calls are inferred.
#[verifier::opaque]
pub open spec fn finished<M: Fn(&FunctionTable, &AddressSpace) -> Vec<Rename>>(
    passed: EngineModel,
    config: Config,
    matcher: M,
    done: EngineModel,
) -> bool {
    if config.x86.flirt_enabled {
        exists|names: Vec<Rename>| #[trigger]
            matched(passed, matcher, names) && done == infer_all(
                named(passed, names@),
                passed.unresolved,
            )
    } else {
        done == infer_all(passed, passed.unresolved)
    }
}

/// The analysis leads from `start` over `passed` to `done`.
pub open spec fn outcome<
    D: Fn(&[u8], u64, Mode) -> Result<Instruction, DecodeError>,
    M: Fn(&FunctionTable, &AddressSpace) -> Vec<Rename>,
>(
    start: EngineModel,
    header: Header,
    config: Config,
    decoder: D,
    matcher: M,
    passed: EngineModel,
    done: EngineModel,
) -> bool {
    passes(start, header, config, decoder, passed) && finished(passed, config, matcher, done)
}

/// `result` is what an analysis by `header` of `binary` gives with the
/// decoder `decoder` and the matcher `matcher`.
///
/// It holds the header, and the instruction map and the function table
/// that the passes and what follows them make of the engine that the
/// analysis starts from. Every instruction of it lies within a region of
/// the image or the stack, every call with a known target is noted at its
/// callee, and every call site and return of the function table is a
/// recorded call or return. The result holds every instruction of the first
/// pass; the later passes only add to it.
pub open spec fn describes<
    D: Fn(&[u8], u64, Mode) -> Result<Instruction, DecodeError>,
    M: Fn(&FunctionTable, &AddressSpace) -> Vec<Rename>,
>(
    result: AnalysisResult,
    header: Header,
    binary: Seq<u8>,
    config: Config,
    decoder: D,
    matcher: M,
) -> bool {
    let start = spec_start(header, binary, config);
    &&& result.xi == (Xori { arch: Arch::ArchX86, mode: header.mode })
    &&& result.base == header.image_base
    &&& result.header == header
    &&& result.model(start.memory).wf()
    &&& result.functions@.contains_key(spec_entry(header))
    &&& exists|passed: EngineModel, done: EngineModel|
        {
            &&& #[trigger] outcome(start, header, config, decoder, matcher, passed, done)
            &&& result.instr_info@ == done.instructions
            &&& result.functions@ == done.functions
            &&& result.unresolved@ == done.unresolved
            &&& result.truncated == done.truncated
        }
    &&& exists|first: EngineModel|
        {
            &&& #[trigger] first_pass(start, decoder, first)
            &&& keeps(first.instructions, result.instr_info@)
            &&& extends(first.functions, result.functions@)
        }
}

/// An engine at rest keeps its invariant over other regions of the same
/// layout.
pub proof fn lemma_wf_layout(e: EngineModel, memory: Seq<RegionModel>)
    requires
        e.wf(),
        same_layout(memory, e.memory),
        crate::memory::regions_fit(memory),
    ensures
        (EngineModel { memory, queue: Seq::<ItemModel>::empty(), ..e }).wf(),
{
    let r = EngineModel { memory, queue: Seq::<ItemModel>::empty(), ..e };
    assert forall|a: u64| #[trigger] r.instructions.contains_key(a) implies r.placed(a) by {
        assert(e.placed(a));
        lemma_same_layout_covers(memory, e.memory, a, e.instructions[a].instr.size as nat);
    }
    assert forall|a: u64| #[trigger] r.instructions.contains_key(a) implies r.call_noted(a) by {
        assert(e.call_noted(a));
    }
    assert forall|f: u64| #[trigger] r.functions.contains_key(f) implies r.backed(f) by {
        assert(e.backed(f));
    }
}

/// The engine `after` came from `before` by growth alone: the regions
/// keep their layout and the mode, every instruction stands where it stood,
/// and the function table lost nothing.
#[verifier::opaque]
pub open spec fn grown(before: EngineModel, after: EngineModel) -> bool {
    &&& same_layout(before.memory, after.memory)
    &&& after.mode == before.mode
    &&& keeps(before.instructions, after.instructions)
    &&& extends(before.functions, after.functions)
}

/// Growth goes on: what grew from something that grew, grew.
pub proof fn lemma_grown_trans(a: EngineModel, b: EngineModel, c: EngineModel)
    requires
        grown(a, b),
        grown(b, c),
    ensures
        grown(a, c),
{
    reveal(grown);
    crate::memory::lemma_same_layout_trans(a.memory, b.memory, c.memory);
    assert forall|f: u64| #[trigger] a.functions.contains_key(f) implies c.functions.contains_key(
        f,
    ) && a.functions[f].xrefs.subset_of(c.functions[f].xrefs) && a.functions[f].returns.subset_of(
        c.functions[f].returns,
    ) by {
        assert(b.functions.contains_key(f));
    }
    assert forall|x: u64| #[trigger] a.instructions.contains_key(
        x,
    ) implies c.instructions.contains_key(x) && c.instructions[x].instr
        == a.instructions[x].instr by {
        assert(b.instructions.contains_key(x));
    }
}

/// Everything grew from itself.
pub proof fn lemma_grown_refl(a: EngineModel)
    ensures
        grown(a, a),
{
    reveal(grown);
    lemma_same_layout_covers(a.memory, a.memory, 0, 0);
}

/// Monotonicity of a pass: the engine after any run grew from the engine
/// before it, and keeps the invariant.
pub proof fn lemma_pass_grows<D: Fn(&[u8], u64, Mode) -> Result<Instruction, DecodeError>>(
    start: EngineModel,
    decoder: D,
    first: EngineModel,
)
    requires
        start.wf(),
        first_pass(start, decoder, first),
    ensures
        first.wf(),
        grown(start, first),
{
    reveal(first_pass);
    let answers = choose|answers: Seq<Result<Instruction, DecodeError>>|
        #[trigger] consistent(start, decoder, answers) && first == start.replay(answers)
            && first.queue.len() == 0;
    crate::replay::lemma_replay(start, answers);
    reveal(grown);
}

/// A pass that is seeded keeps the invariant, and the engine only grows.
pub proof fn lemma_fallback_grows<D: Fn(&[u8], u64, Mode) -> Result<Instruction, DecodeError>>(
    before: EngineModel,
    seed: ItemModel,
    decoder: D,
    after: EngineModel,
)
    requires
        before.wf(),
        seed.loops.wf(),
        pass_from(before, seed, decoder, after),
    ensures
        after.wf(),
        grown(before, after),
{
    lemma_seeded_wf(before, seed);
    lemma_pass_grows(before.seeded(seed), decoder, after);
    assert(grown(before, before.seeded(seed))) by {
        reveal(grown);
        lemma_same_layout_covers(before.memory, before.memory, 0, 0);
    }
    lemma_grown_trans(before, before.seeded(seed), after);
}

/// Sets the engine up for the first pass. There is none where the image
/// cannot be mapped.
pub fn start_engine(header: &Header, binary: &[u8], config: &Config) -> (r: Option<Engine>)
    ensures
        r is Some <==> spec_memory(*header, binary@, *config) is Some,
        r matches Some(engine) ==> engine.wf() && engine@ == spec_start(
            *header,
            binary@,
            *config,
        ),
{
    let mut memory = match map_image(header, binary) {
        Some(memory) => memory,
        None => {
            return None;
        },
    };
    add_stack(&mut memory, config.x86.stack_address, header.stack_size);
    let ghost start = spec_start(*header, binary@, *config);
    let entry = offset(header.image_base, header.address_of_entry_point);
    let mut engine = Engine::new(header.mode, memory);
    engine.functions.get_or_create(entry);
    engine.functions.rename(entry, "EntryPoint".to_string());
    assert(engine@.functions =~= start.functions);
    assert(engine.wf()) by {
        let e = engine@;
        assert forall|f: u64| #[trigger] e.functions.contains_key(f) implies e.backed(f) by {
            assert(f == entry);
        }
    }
    let first = seed_item(header, config, entry, Some(entry), AnalysisType::Code);
    engine.seed(first);
    assert(engine@.queue =~= start.queue);
    Some(engine)
}

/// One more pass: seeds the queue at `address`, for bytes taken as data and
/// owned by no function, and drains it.
pub fn fallback_pass<D: Fn(&[u8], u64, Mode) -> Result<Instruction, DecodeError>>(
    engine: &mut Engine,
    header: &Header,
    config: &Config,
    address: u64,
    decoder: &D,
)
    requires
        old(engine).wf(),
        forall|b: &[u8], a: u64, m: Mode| decoder.requires((b, a, m)),
    ensures
        final(engine).wf(),
        pass_from(
            old(engine)@,
            spec_seed(*header, *config, address, None, AnalysisType::Data),
            *decoder,
            final(engine)@,
        ),
{
    let item = seed_item(header, config, address, None, AnalysisType::Data);
    engine.seed(item);
    let ghost seeded = engine@;
    engine.run(decoder);
    proof {
        reveal(first_pass);
        let answers = choose|answers: Seq<Result<Instruction, DecodeError>>|
            consistent(seeded, *decoder, answers) && engine@ == seeded.replay(answers);
        assert(consistent(seeded, *decoder, answers));
    }
}

/// The passes of the traversal: from the entry point and, without
/// emulation, from the start of code and the start of data.
pub fn run_passes<D: Fn(&[u8], u64, Mode) -> Result<Instruction, DecodeError>>(
    engine: &mut Engine,
    header: &Header,
    config: &Config,
    decoder: &D,
)
    requires
        old(engine).wf(),
        forall|b: &[u8], a: u64, m: Mode| decoder.requires((b, a, m)),
    ensures
        final(engine).wf(),
        passes(old(engine)@, *header, *config, *decoder, final(engine)@),
{
    let ghost start = engine@;
    engine.run(decoder);
    let ghost first = engine@;
    proof {
        reveal(first_pass);
        let answers = choose|answers: Seq<Result<Instruction, DecodeError>>|
            consistent(start, *decoder, answers) && first == start.replay(answers);
        assert(consistent(start, *decoder, answers));
        assert(first_pass(start, *decoder, first));
    }
    proof {
        reveal(passes);
    }
    if !config.x86.emulation_enabled {
        fallback_pass(
            engine,
            header,
            config,
            offset(header.image_base, header.base_of_code),
            decoder,
        );
        let ghost second = engine@;
        fallback_pass(
            engine,
            header,
            config,
            offset(header.image_base, header.base_of_data),
            decoder,
        );
        assert(chain(start, *header, *config, *decoder, first, second, engine@));
    } else {
        assert(chain(start, *header, *config, *decoder, first, first, engine@));
    }
}

/// What follows the passes: the signature matcher names functions where
/// the options ask for it, and the callees of unresolved calls are
/// inferred.
pub fn finish<M: Fn(&FunctionTable, &AddressSpace) -> Vec<Rename>>(
    engine: &mut Engine,
    config: &Config,
    matcher: &M,
)
    requires
        old(engine).wf(),
        forall|t: &FunctionTable, s: &AddressSpace| matcher.requires((t, s)),
    ensures
        final(engine).wf(),
        finished(old(engine)@, *config, *matcher, final(engine)@),
{
    proof {
        reveal(finished);
    }
    if config.x86.flirt_enabled {
        let names = matcher(&engine.functions, &engine.memory);
        assert(matched(old(engine)@, *matcher, names)) by {
            assert(matcher.ensures((&engine.functions, &engine.memory), names));
        }
        proof {
            lemma_apply_names(engine@, names@);
        }
        apply_names(&mut engine.functions, &names);
        assert(engine@ == named(old(engine)@, names@));
        infer_indirect_calls(engine);
    } else {
        infer_indirect_calls(engine);
    }
}

/// What follows the passes keeps the invariant, the regions and the
/// addresses of the instruction map, and the engine only grows.
pub proof fn lemma_finished<M: Fn(&FunctionTable, &AddressSpace) -> Vec<Rename>>(
    passed: EngineModel,
    config: Config,
    matcher: M,
    done: EngineModel,
)
    requires
        passed.wf(),
        finished(passed, config, matcher, done),
    ensures
        done.wf(),
        done.memory == passed.memory,
        done.queue == passed.queue,
        done.instructions.dom() == passed.instructions.dom(),
        grown(passed, done),
{
    reveal(grown);
    reveal(finished);
    lemma_same_layout_covers(passed.memory, passed.memory, 0, 0);
    if config.x86.flirt_enabled {
        let names = choose|names: Vec<Rename>| #[trigger]
            matched(passed, matcher, names) && done == infer_all(
                named(passed, names@),
                passed.unresolved,
            );
        lemma_apply_names(passed, names@);
        lemma_infer_all(named(passed, names@), passed.unresolved);
        let mid = named(passed, names@);
        assert forall|f: u64| #[trigger]
            passed.functions.contains_key(f) implies done.functions.contains_key(f)
            && passed.functions[f].xrefs.subset_of(done.functions[f].xrefs)
            && passed.functions[f].returns.subset_of(done.functions[f].returns) by {
            assert(mid.functions.contains_key(f));
        }
    } else {
        lemma_infer_all(passed, passed.unresolved);
    }
}

/// The passes keep the invariant and leave an empty queue, and the engine
/// only grows: from the start to the first pass, and from there to the end.
pub proof fn lemma_passes<D: Fn(&[u8], u64, Mode) -> Result<Instruction, DecodeError>>(
    start: EngineModel,
    header: Header,
    config: Config,
    decoder: D,
    end: EngineModel,
)
    requires
        start.wf(),
        passes(start, header, config, decoder, end),
    ensures
        end.wf(),
        end.queue.len() == 0,
        grown(start, end),
        exists|first: EngineModel| #[trigger]
            first_pass(start, decoder, first) && grown(first, end),
{
    reveal(passes);
    let (first, second) = choose|first: EngineModel, second: EngineModel| #[trigger]
        chain(start, header, config, decoder, first, second, end);
    lemma_pass_grows(start, decoder, first);
    lemma_first_pass_drains(start, decoder, first);
    if config.x86.emulation_enabled {
        lemma_grown_refl(first);
    } else {
        let code = spec_code_seed(header, config);
        let data = spec_data_seed(header, config);
        lemma_fallback_grows(first, code, decoder, second);
        lemma_fallback_grows(second, data, decoder, end);
        lemma_first_pass_drains(second.seeded(data), decoder, end);
        lemma_grown_trans(first, second, end);
    }
    lemma_grown_trans(start, first, end);
}

/// A pass leaves an empty queue.
pub proof fn lemma_first_pass_drains<D: Fn(&[u8], u64, Mode) -> Result<Instruction, DecodeError>>(
    start: EngineModel,
    decoder: D,
    first: EngineModel,
)
    requires
        first_pass(start, decoder, first),
    ensures
        first.queue.len() == 0,
{
    reveal(first_pass);
}

/// Seeding a pass keeps the invariant.
pub proof fn lemma_seeded_wf(e: EngineModel, seed: ItemModel)
    requires
        e.wf(),
        seed.loops.wf(),
    ensures
        e.seeded(seed).wf(),
{
    let after = e.seeded(seed);
    assert forall|a: u64| #[trigger] after.instructions.contains_key(a) implies after.placed(
        a,
    ) by {
        assert(e.placed(a));
    }
    assert forall|a: u64| #[trigger] after.instructions.contains_key(a) implies after.call_noted(
        a,
    ) by {
        assert(e.call_noted(a));
    }
    assert forall|f: u64| #[trigger] after.functions.contains_key(f) implies after.backed(f) by {
        assert(e.backed(f));
    }
}

/// Analyses `binary` by `header`: maps image and stack, runs the traversal
/// from the entry point, without emulation also from the start of code and
/// of data, lets the signature matcher name functions where the options ask
/// for it, and infers the callees of unresolved calls.
///
/// There is no result for another architecture than x86, nor where the
/// image cannot be mapped.
pub fn disassemble_init<
    D: Fn(&[u8], u64, Mode) -> Result<Instruction, DecodeError>,
    M: Fn(&FunctionTable, &AddressSpace) -> Vec<Rename>,
>(arch: &Arch, header: Header, binary: &[u8], config: &Config, decoder: &D, matcher: &M) -> (r:
    Option<AnalysisResult>)
    requires
        forall|b: &[u8], a: u64, m: Mode| decoder.requires((b, a, m)),
        forall|t: &FunctionTable, s: &AddressSpace| matcher.requires((t, s)),
    ensures
        r is Some <==> *arch == Arch::ArchX86 && spec_memory(header, binary@, *config) is Some,
        r matches Some(result) ==> describes(
            result,
            header,
            binary@,
            *config,
            *decoder,
            *matcher,
        ),
{
    match arch {
        Arch::ArchX86 => {},
        _ => {
            return None;
        },
    }
    let mut engine = match start_engine(&header, binary, config) {
        Some(engine) => engine,
        None => {
            return None;
        },
    };
    let ghost start = engine@;
    run_passes(&mut engine, &header, config, decoder);
    let ghost passed = engine@;
    finish(&mut engine, config, matcher);
    let ghost done = engine@;
    let result = AnalysisResult {
        xi: Xori { arch: Arch::ArchX86, mode: header.mode },
        base: header.image_base,
        header,
        instr_info: engine.instr_info,
        functions: engine.functions,
        unresolved: engine.unresolved,
        truncated: engine.truncated,
    };
    proof {
        lemma_described(result, passed, done, header, binary@, *config, *decoder, *matcher);
    }
    Some(result)
}

/// The result of set-up, passes and what follows them is what `describes`
/// says.
proof fn lemma_described<
    D: Fn(&[u8], u64, Mode) -> Result<Instruction, DecodeError>,
    M: Fn(&FunctionTable, &AddressSpace) -> Vec<Rename>,
>(
    result: AnalysisResult,
    passed: EngineModel,
    done: EngineModel,
    header: Header,
    binary: Seq<u8>,
    config: Config,
    decoder: D,
    matcher: M,
)
    requires
        spec_start(header, binary, config).wf(),
        passes(spec_start(header, binary, config), header, config, decoder, passed),
        finished(passed, config, matcher, done),
        result.xi == (Xori { arch: Arch::ArchX86, mode: header.mode }),
        result.base == header.image_base,
        result.header == header,
        result.instr_info@ == done.instructions,
        result.functions@ == done.functions,
        result.unresolved@ == done.unresolved,
        result.truncated == done.truncated,
    ensures
        describes(result, header, binary, config, decoder, matcher),
{
    let start = spec_start(header, binary, config);
    lemma_passes(start, header, config, decoder, passed);
    lemma_finished(passed, config, matcher, done);
    let first = choose|first: EngineModel| #[trigger]
        first_pass(start, decoder, first) && grown(first, passed);
    lemma_grown_trans(first, passed, done);
    lemma_grown_trans(start, passed, done);
    assert(outcome(start, header, config, decoder, matcher, passed, done));
    reveal(grown);
    lemma_same_layout_covers(start.memory, done.memory, 0, 0);
    lemma_wf_layout(done, start.memory);
    assert(done.queue =~= Seq::<ItemModel>::empty());
    assert(result.model(start.memory) == (EngineModel {
        memory: start.memory,
        queue: Seq::<ItemModel>::empty(),
        ..done
    }));
    assert(start.functions.contains_key(spec_entry(header)));
    assert(first_pass(start, decoder, first));
}

/// The header that `analyze` goes by, where there is one.
///
/// A raw buffer goes by a fresh header with the image base, the entry point
/// and the stack size of the options (for x86), the length of the buffer and
/// the mode asked for. A PE image goes by the loader's header, unless that
/// has no entry point. There is none for what `parse` refuses.
pub open spec fn spec_analysis_header(
    arch: Arch,
    mode: Mode,
    binary: Seq<u8>,
    config: Config,
    pe: Result<Header, String>,
) -> Option<Header> {
    let kind = spec_identify(binary);
    let parsed = spec_parse_header(Header::spec_new(), kind, pe);
    if spec_parse_result(kind, pe) is Err {
        None
    } else if parsed.binary_type == BinaryType::BIN {
        let sized = Header { size_of_image: binary.len() as u64, mode, ..parsed };
        if arch == Arch::ArchX86 {
            Some(
                Header {
                    image_base: if config.x86.start_address == 0 {
                        0x1000
                    } else {
                        config.x86.start_address
                    },
                    address_of_entry_point: config.x86.entry_point,
                    stack_size: if config.x86.stack_size == 0 {
                        crate::header::STACK_ADDRESS
                    } else {
                        config.x86.stack_size
                    },
                    ..sized
                },
            )
        } else {
            Some(sized)
        }
    } else if parsed.binary_type.spec_is_pe() && parsed.address_of_entry_point != 0 {
        Some(parsed)
    } else {
        None
    }
}

/// Identifies the buffer and makes the header that the analysis goes by.
pub fn analysis_header(
    arch: &Arch,
    mode: &Mode,
    binary: &[u8],
    config: &Config,
    pe: Result<Header, String>,
) -> (r: Option<Header>)
    ensures
        r == spec_analysis_header(*arch, *mode, binary@, *config, pe),
{
    let mut header = Header::new();
    match header.parse(binary, pe) {
        Ok(_) => {},
        Err(_) => {
            return None;
        },
    }
    match header.binary_type {
        BinaryType::BIN => {
            match arch {
                Arch::ArchX86 => {
                    header.image_base = if config.x86.start_address == 0 {
                        0x1000
                    } else {
                        config.x86.start_address
                    };
                    header.address_of_entry_point = config.x86.entry_point;
                    header.stack_size = if config.x86.stack_size == 0 {
                        crate::header::STACK_ADDRESS
                    } else {
                        config.x86.stack_size
                    };
                },
                _ => {},
            }
            header.size_of_image = binary.len() as u64;
            header.mode = *mode;
            Some(header)
        },
        BinaryType::PE | BinaryType::PEEXE | BinaryType::PEDLL | BinaryType::PESYS
        | BinaryType::PENET => {
            if header.address_of_entry_point == 0 {
                None
            } else {
                Some(header)
            }
        },
        _ => None,
    }
}

/// Analyses a buffer of x86 code: a raw buffer, or a PE image of which
/// `pe` is the header that the PE loader read.
///
/// There is a result where the buffer is of a kind that is supported, the
/// architecture is x86 and the image can be mapped; `describes` says what
/// the result is.
pub fn analyze<
    D: Fn(&[u8], u64, Mode) -> Result<Instruction, DecodeError>,
    M: Fn(&FunctionTable, &AddressSpace) -> Vec<Rename>,
>(
    arch: &Arch,
    mode: &Mode,
    binary: &[u8],
    config: &Config,
    pe: Result<Header, String>,
    decoder: &D,
    matcher: &M,
) -> (r: Option<AnalysisResult>)
    requires
        forall|b: &[u8], a: u64, m: Mode| decoder.requires((b, a, m)),
        forall|t: &FunctionTable, s: &AddressSpace| matcher.requires((t, s)),
    ensures
        r is Some <==> *arch == Arch::ArchX86 && (spec_analysis_header(
            *arch,
            *mode,
            binary@,
            *config,
            pe,
        ) matches Some(header) && spec_memory(header, binary@, *config) is Some),
        r matches Some(result) ==> describes(
            result,
            spec_analysis_header(*arch, *mode, binary@, *config, pe)->Some_0,
            binary@,
            *config,
            *decoder,
            *matcher,
        ),
{
    match analysis_header(arch, mode, binary, config, pe) {
        Some(header) => disassemble_init(arch, header, binary, config, decoder, matcher),
        None => None,
    }
}

} // verus!
