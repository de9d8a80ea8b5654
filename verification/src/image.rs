//! Setting a traversal up: the regions of the image and the stack, and the
//! first work item.

use vstd::prelude::*;
use crate::configuration::Config;
use crate::cpu::{CpuState, Flags, RegValue, Registers, Segments};
use crate::disasm::Mode;
use crate::engine::WorkItem;
use crate::header::{Header, Section};
use crate::loops::{LoopModel, LoopState};
use crate::memory::{AddressSpace, MemoryType, RegionModel};
use crate::model::{AnalysisType, Frame, ItemModel};

verus! {

/// The sum of two addresses; it wraps at the end of the 64-bit range.
pub open spec fn spec_offset(base: u64, delta: u64) -> u64 {
    ((base + delta) % 0x1_0000_0000_0000_0000) as u64
}

/// The sum of two addresses; it wraps at the end of the 64-bit range.
pub fn offset(base: u64, delta: u64) -> (a: u64)
    ensures
        a == spec_offset(base, delta),
{
    base.wrapping_add(delta)
}

/// `n` zero bytes.
pub fn zeroed(n: usize) -> (bytes: Vec<u8>)
    ensures
        bytes@ == Seq::new(n as nat, |i: int| 0u8),
{
    let mut bytes: Vec<u8> = Vec::new();
    let mut i: usize = 0;
    while i < n
        invariant
            i <= n,
            bytes@ == Seq::new(i as nat, |k: int| 0u8),
        decreases n - i,
    {
        bytes.push(0);
        assert(bytes@ =~= Seq::new((i + 1) as nat, |k: int| 0u8));
        i += 1;
    }
    bytes
}

/// The bytes of the section lie within the file, and its addresses within
/// the 64-bit range.
pub open spec fn section_fits(image_base: u64, s: Section, binary: Seq<u8>) -> bool {
    s.raw_offset + s.raw_size <= binary.len() && image_base + s.virtual_address + s.raw_size
        <= u64::MAX
}

/// The region that a section gives: its bytes of the file, at its address.
pub open spec fn section_region(image_base: u64, s: Section, binary: Seq<u8>) -> RegionModel {
    RegionModel {
        base: (image_base + s.virtual_address) as u64,
        kind: MemoryType::Image,
        writable: true,
        bytes: binary.subrange(s.raw_offset as int, s.raw_offset + s.raw_size),
    }
}

/// The regions that the sections give, in their order; none where one of
/// them does not fit.
pub open spec fn spec_sections(image_base: u64, sections: Seq<Section>, binary: Seq<u8>) -> Option<
    Seq<RegionModel>,
>
    decreases sections.len(),
{
    if sections.len() == 0 {
        Some(Seq::<RegionModel>::empty())
    } else {
        match spec_sections(image_base, sections.drop_last(), binary) {
            Some(regions) => if section_fits(image_base, sections.last(), binary) {
                Some(regions.push(section_region(image_base, sections.last(), binary)))
            } else {
                None
            },
            None => None,
        }
    }
}

/// Where the first sections give no regions, all of them give none.
pub proof fn lemma_sections_prefix(
    image_base: u64,
    sections: Seq<Section>,
    binary: Seq<u8>,
    k: int,
)
    requires
        0 <= k <= sections.len(),
        spec_sections(image_base, sections.take(k), binary) is None,
    ensures
        spec_sections(image_base, sections, binary) is None,
    decreases sections.len() - k,
{
    if k == sections.len() {
        assert(sections.take(k) =~= sections);
    } else {
        assert(sections.drop_last().take(k) =~= sections.take(k));
        lemma_sections_prefix(image_base, sections.drop_last(), binary, k);
    }
}

/// The regions of the image: one for each section of a PE image that has a
/// section table, else the whole file at the image base. None where a
/// section does not fit or the file runs over the end of the address range.
pub open spec fn spec_image(header: Header, binary: Seq<u8>) -> Option<Seq<RegionModel>> {
    if header.binary_type.spec_is_pe() && header.section_table is Some {
        spec_sections(header.image_base, header.section_table->Some_0@, binary)
    } else if header.image_base + binary.len() <= u64::MAX {
        Some(
            seq![
                RegionModel {
                    base: header.image_base,
                    kind: MemoryType::Image,
                    writable: true,
                    bytes: binary,
                },
            ],
        )
    } else {
        None
    }
}

/// The regions with a zeroed stack region behind them, where its size fits
/// the machine and its end the address range; else the regions as they are.
pub open spec fn spec_with_stack(regions: Seq<RegionModel>, stack_address: u64, stack_size: u64) -> Seq<
    RegionModel,
> {
    if stack_size <= usize::MAX && stack_address + stack_size <= u64::MAX {
        regions.push(
            RegionModel {
                base: stack_address,
                kind: MemoryType::Stack,
                writable: true,
                bytes: Seq::new(stack_size as nat, |i: int| 0u8),
            },
        )
    } else {
        regions
    }
}

/// The regions that a traversal starts with: the image, then the stack.
pub open spec fn spec_memory(header: Header, binary: Seq<u8>, config: Config) -> Option<
    Seq<RegionModel>,
> {
    match spec_image(header, binary) {
        Some(regions) => Some(
            spec_with_stack(regions, config.x86.stack_address, header.stack_size),
        ),
        None => None,
    }
}

/// Copies the bytes `[from, from + len)` of `binary`.
fn copy_range(binary: &[u8], from: usize, len: usize) -> (bytes: Vec<u8>)
    requires
        from + len <= binary@.len(),
    ensures
        bytes@ == binary@.subrange(from as int, from + len),
{
    let total: usize = binary.len();
    let mut bytes: Vec<u8> = Vec::new();
    let mut k: usize = 0;
    while k < len
        invariant
            k <= len,
            total == binary@.len(),
            from + len <= binary@.len(),
            bytes@ == binary@.subrange(from as int, from + k),
        decreases len - k,
    {
        bytes.push(binary[from + k]);
        assert(bytes@ =~= binary@.subrange(from as int, from + k + 1));
        k += 1;
    }
    bytes
}

/// Registers the regions of the image. Where a region cannot be mapped the
/// answer is `None`.
pub fn map_image(header: &Header, binary: &[u8]) -> (r: Option<AddressSpace>)
    ensures
        match r {
            Some(space) => spec_image(*header, binary@) == Some(space@) && space.wf(),
            None => spec_image(*header, binary@) is None,
        },
{
    let mut space = AddressSpace::new();
    if header.binary_type.is_pe() && header.section_table.is_some() {
        let sections = header.section_table.as_ref().unwrap();
        let n: usize = sections.len();
        let mut i: usize = 0;
        assert(sections@.take(0) =~= Seq::<Section>::empty());
        while i < n
            invariant
                i <= n,
                n == sections@.len(),
                header.binary_type.spec_is_pe(),
                header.section_table == Some(*sections),
                space.wf(),
                spec_sections(header.image_base, sections@.take(i as int), binary@) == Some(
                    space@,
                ),
            decreases n - i,
        {
            let s = &sections[i];
            assert(sections@.take(i + 1).drop_last() =~= sections@.take(i as int));
            assert(sections@.take(i + 1).last() == sections@[i as int]);
            let size: u64 = binary.len() as u64;
            let fits = s.raw_offset <= size && s.raw_size <= size - s.raw_offset
                && s.virtual_address <= u64::MAX - header.image_base && s.raw_size <= u64::MAX
                - header.image_base - s.virtual_address;
            if !fits {
                proof {
                    lemma_sections_prefix(header.image_base, sections@, binary@, i + 1);
                }
                return None;
            }
            let bytes = copy_range(binary, s.raw_offset as usize, s.raw_size as usize);
            let base: u64 = header.image_base + s.virtual_address;
            let added = space.register(base, MemoryType::Image, true, bytes);
            i += 1;
        }
        assert(sections@.take(n as int) =~= sections@);
        Some(space)
    } else {
        let size: u64 = binary.len() as u64;
        if size > u64::MAX - header.image_base {
            return None;
        }
        let bytes = copy_range(binary, 0, binary.len());
        assert(bytes@ =~= binary@);
        let added = space.register(header.image_base, MemoryType::Image, true, bytes);
        assert(space@ =~= seq![
            RegionModel {
                base: header.image_base,
                kind: MemoryType::Image,
                writable: true,
                bytes: binary@,
            },
        ]);
        Some(space)
    }
}

/// Registers a zeroed stack region behind the regions that are there,
/// where its size fits the machine and its end the address range.
pub fn add_stack(space: &mut AddressSpace, stack_address: u64, stack_size: u64)
    requires
        old(space).wf(),
    ensures
        final(space).wf(),
        final(space)@ == spec_with_stack(old(space)@, stack_address, stack_size),
{
    if stack_size <= usize::MAX as u64 && stack_size <= u64::MAX - stack_address {
        let bytes = zeroed(stack_size as usize);
        let added = space.register(stack_address, MemoryType::Stack, true, bytes);
    }
}

/// The processor state that a traversal starts with: no register known but
/// the stack pointer, which points behind the stack.
pub open spec fn spec_initial_cpu(mode: Mode, stack_top: u64, code_start: u64, data_start: u64) -> CpuState {
    CpuState {
        regs: Registers { esp: RegValue::spec_known(stack_top), ..CpuState::spec_new().regs },
        segments: Segments { cs: code_start, ds: data_start, ss: stack_top },
        flags: Flags::spec_unknown(),
        address_size: mode.spec_size(),
        stack_address: stack_top,
    }
}

/// The processor state that a traversal starts with.
pub fn initial_cpu(mode: Mode, stack_top: u64, code_start: u64, data_start: u64) -> (cpu: CpuState)
    ensures
        cpu == spec_initial_cpu(mode, stack_top, code_start, data_start),
{
    let mut cpu = CpuState::new();
    cpu.address_size = mode.get_size();
    cpu.stack_address = stack_top;
    cpu.segments.ss = stack_top;
    cpu.segments.cs = code_start;
    cpu.segments.ds = data_start;
    cpu.regs.esp = RegValue::known(stack_top);
    cpu
}

/// Address of the entry point.
pub open spec fn spec_entry(header: Header) -> u64 {
    spec_offset(header.image_base, header.address_of_entry_point)
}

/// The processor state at the entry point.
pub open spec fn spec_entry_cpu(header: Header, config: Config) -> CpuState {
    spec_initial_cpu(
        header.mode,
        spec_offset(config.x86.stack_address, header.stack_size),
        spec_offset(header.image_base, header.base_of_code),
        spec_offset(header.image_base, header.base_of_data),
    )
}

/// A work item at `address` with the processor state of the entry point,
/// an empty call stack and no visits.
pub open spec fn spec_seed(
    header: Header,
    config: Config,
    address: u64,
    owner: Option<u64>,
    analysis_type: AnalysisType,
) -> ItemModel {
    ItemModel {
        offset: address,
        cpu: spec_entry_cpu(header, config),
        call_stack: Seq::<Frame>::empty(),
        owning_function: owner,
        emulation_enabled: config.x86.emulation_enabled,
        loops: LoopModel {
            max_loops: config.x86.loop_default_case,
            forward: Seq::<u64>::empty(),
            tracker: Seq::<(u64, usize)>::empty(),
        },
        analysis_type,
    }
}

/// A work item at `address` with the processor state of the entry point,
/// an empty call stack and no visits.
pub fn seed_item(
    header: &Header,
    config: &Config,
    address: u64,
    owner: Option<u64>,
    analysis_type: AnalysisType,
) -> (item: WorkItem)
    ensures
        item@ == spec_seed(*header, *config, address, owner, analysis_type),
        item.loop_state.wf(),
{
    let cpu = initial_cpu(
        header.mode,
        offset(config.x86.stack_address, header.stack_size),
        offset(header.image_base, header.base_of_code),
        offset(header.image_base, header.base_of_data),
    );
    WorkItem {
        offset: address,
        cpu,
        call_stack: Vec::new(),
        owning_function: owner,
        emulation_enabled: config.x86.emulation_enabled,
        loop_state: LoopState::new(config.x86.loop_default_case),
        analysis_type,
    }
}

} // verus!
