use xori::analyze::{analyze, AnalysisResult, Rename};
use xori::configuration::Config;
use xori::disasm::{
    Arch, DecodeError, Flow, Instruction, Mode, Operand, Operation, Reg, Target,
};
use xori::engine::{Engine, WorkItem};
use xori::functions::FunctionTable;
use xori::header::{BinaryType, Header, Section};
use xori::image::seed_item;
use xori::memory::{AddressSpace, MemoryType};
use xori::model::{AnalysisType, Detail};

fn reg(code: u8) -> Reg {
    match code & 7 {
        0 => Reg::Ax,
        1 => Reg::Cx,
        2 => Reg::Dx,
        3 => Reg::Bx,
        4 => Reg::Sp,
        5 => Reg::Bp,
        6 => Reg::Si,
        _ => Reg::Di,
    }
}

fn le32(bytes: &[u8]) -> u32 {
    u32::from_le_bytes([bytes[0], bytes[1], bytes[2], bytes[3]])
}

fn built(
    bytes: &[u8],
    address: u64,
    size: usize,
    mnemonic: &str,
    flow: Flow,
    operation: Operation,
) -> Result<Instruction, DecodeError> {
    if bytes.len() < size {
        return Err(DecodeError::Truncated);
    }
    let mut raw = [0u8; 16];
    raw[..size].copy_from_slice(&bytes[..size]);
    Ok(Instruction {
        address,
        size,
        bytes: raw,
        mnemonic: mnemonic.to_string(),
        op_str: String::new(),
        flow,
        operation,
    })
}

fn relative(address: u64, size: u64, displacement: i64) -> u64 {
    (address.wrapping_add(size) as i64).wrapping_add(displacement) as u64 & 0xffff_ffff
}

/// A decoder for the handful of 32-bit instructions that the tests use.
fn decode(bytes: &[u8], address: u64, _mode: Mode) -> Result<Instruction, DecodeError> {
    if bytes.is_empty() {
        return Err(DecodeError::Truncated);
    }
    let op = bytes[0];
    match op {
        0x90 => built(bytes, address, 1, "nop", Flow::Next, Operation::Nop),
        0xc3 => built(bytes, address, 1, "ret", Flow::Return, Operation::Nop),
        0xcd => built(bytes, address, 2, "int", Flow::Next, Operation::Nop),
        0x50..=0x57 => built(
            bytes,
            address,
            1,
            "push",
            Flow::Next,
            Operation::Push { src: Operand::Reg(reg(op)) },
        ),
        0x58..=0x5f => {
            built(bytes, address, 1, "pop", Flow::Next, Operation::Pop { dst: reg(op) })
        }
        0xb8..=0xbf => {
            if bytes.len() < 5 {
                return Err(DecodeError::Truncated);
            }
            built(
                bytes,
                address,
                5,
                "mov",
                Flow::Next,
                Operation::Mov { dst: reg(op), src: Operand::Imm(le32(&bytes[1..]) as u64) },
            )
        }
        0xe9 | 0xe8 => {
            if bytes.len() < 5 {
                return Err(DecodeError::Truncated);
            }
            let target = Target::Direct(relative(address, 5, le32(&bytes[1..]) as i32 as i64));
            if op == 0xe9 {
                built(bytes, address, 5, "jmp", Flow::Jump(target), Operation::Nop)
            } else {
                built(bytes, address, 5, "call", Flow::Call(target), Operation::Nop)
            }
        }
        0xeb | 0x74 => {
            if bytes.len() < 2 {
                return Err(DecodeError::Truncated);
            }
            let to = relative(address, 2, bytes[1] as i8 as i64);
            if op == 0xeb {
                built(bytes, address, 2, "jmp", Flow::Jump(Target::Direct(to)), Operation::Nop)
            } else {
                built(bytes, address, 2, "je", Flow::CondJump(to), Operation::Nop)
            }
        }
        0xff => {
            if bytes.len() < 2 {
                return Err(DecodeError::Truncated);
            }
            match bytes[1] {
                0xe0..=0xe7 => built(
                    bytes,
                    address,
                    2,
                    "jmp",
                    Flow::Jump(Target::Reg(reg(bytes[1]))),
                    Operation::Nop,
                ),
                0xd0..=0xd7 => built(
                    bytes,
                    address,
                    2,
                    "call",
                    Flow::Call(Target::Reg(reg(bytes[1]))),
                    Operation::Nop,
                ),
                0x15 => {
                    if bytes.len() < 6 {
                        return Err(DecodeError::Truncated);
                    }
                    built(
                        bytes,
                        address,
                        6,
                        "call",
                        Flow::Call(Target::Mem(le32(&bytes[2..]) as u64)),
                        Operation::Nop,
                    )
                }
                _ => Err(DecodeError::Invalid),
            }
        }
        _ => Err(DecodeError::Invalid),
    }
}

fn no_names(_table: &FunctionTable, _memory: &AddressSpace) -> Vec<Rename> {
    Vec::new()
}

fn no_loader() -> Result<Header, String> {
    Err("Unsupported format".to_string())
}

fn run(binary: &[u8], config: &Config) -> Option<AnalysisResult> {
    analyze(&Arch::ArchX86, &Mode::Mode32, binary, config, no_loader(), &decode, &no_names)
}

fn addresses(result: &AnalysisResult) -> Vec<u64> {
    result.instr_info.keys().copied().collect()
}

fn shellcode() -> Vec<u8> {
    let mut binary = vec![0xe9, 0x1e, 0x00, 0x00, 0x00];
    binary.extend_from_slice(&[0x06; 30]);
    binary.extend_from_slice(&[0xb8, 0x01, 0x00, 0x00, 0x00, 0xcd, 0x80]);
    binary
}

#[test]
fn entry_only_shellcode_skips_the_filler() {
    let result = run(&shellcode(), &Config::new()).unwrap();
    assert_eq!(addresses(&result), vec![0x1000, 0x1023, 0x1028]);
    assert_eq!(result.instr_info[&0x1000].detail, Detail::Target(0x1023));
    assert_eq!(result.instr_info[&0x1023].instr.mnemonic, "mov");
    assert_eq!(result.instr_info[&0x1028].instr.size, 2);
    assert_eq!(result.functions.funcs.len(), 1);
    let entry = &result.functions.funcs[&0x1000];
    assert_eq!(entry.name, "EntryPoint");
    assert_eq!(entry.address, 0x1000);
    assert!(entry.xrefs.is_empty());
    assert_eq!(entry.jumps[&0x1000].left, 30);
    assert_eq!(entry.jumps[&0x1000].right, 30);
    assert_eq!(result.base, 0x1000);
    assert_eq!(result.header.size_of_image, 42);
    assert_eq!(result.header.binary_type, BinaryType::BIN);
    assert_eq!(result.truncated, 0);
}

fn two_functions() -> Vec<u8> {
    // 0x00: call 0x10; 0x05: call 0x10; 0x0a: ret; filler; 0x10: ret
    let mut binary = vec![0xe8, 0x0b, 0x00, 0x00, 0x00, 0xe8, 0x06, 0x00, 0x00, 0x00, 0xc3];
    binary.extend_from_slice(&[0x06; 5]);
    binary.push(0xc3);
    binary
}

#[test]
fn call_and_return_are_noted_at_the_callee() {
    let result = run(&two_functions(), &Config::new()).unwrap();
    assert_eq!(addresses(&result), vec![0x1000, 0x1005, 0x1010]);
    let callee = &result.functions.funcs[&0x1010];
    assert!(callee.returns.contains(&0x1010));
    assert_eq!(callee.xrefs.iter().copied().collect::<Vec<u64>>(), vec![0x1000, 0x1005]);
    assert_eq!(result.instr_info[&0x1000].detail, Detail::Target(0x1010));
    assert_eq!(result.instr_info[&0x1005].detail, Detail::Target(0x1010));
    assert_eq!(result.functions.funcs.len(), 2);
    assert!(result.functions.funcs[&0x1000].returns.is_empty());
}

#[test]
fn invalid_opcode_gives_an_empty_map() {
    let result = run(&[0x06], &Config::new()).unwrap();
    assert!(result.instr_info.is_empty());
    assert!(!result.instr_info.contains_key(&0x1000));
    assert_eq!(result.functions.funcs.len(), 1);
    assert!(result.unresolved.is_empty());
}

#[test]
fn unresolved_indirect_jump_is_recorded_and_not_followed() {
    // 0x00: je 0x04; 0x02: jmp eax; 0x04: mov eax, 1; 0x09: int 0x80
    let binary = [0x74, 0x02, 0xff, 0xe0, 0xb8, 0x01, 0x00, 0x00, 0x00, 0xcd, 0x80];
    let result = run(&binary, &Config::new()).unwrap();
    assert_eq!(addresses(&result), vec![0x1000, 0x1002, 0x1004, 0x1009]);
    assert_eq!(result.instr_info[&0x1002].detail, Detail::Unresolved);
    assert_eq!(result.unresolved, vec![0x1002]);
    assert_eq!(result.instr_info[&0x1000].detail, Detail::Target(0x1004));
    assert_eq!(result.functions.funcs.len(), 1);
}

#[test]
fn emulation_resolves_a_jump_through_a_register() {
    // 0x00: mov eax, 0x1008; 0x05: jmp eax; 0x07: filler; 0x08: ret
    let binary = [0xb8, 0x08, 0x10, 0x00, 0x00, 0xff, 0xe0, 0x06, 0xc3];
    let result = run(&binary, &Config::new()).unwrap();
    assert_eq!(addresses(&result), vec![0x1000, 0x1005, 0x1008]);
    assert_eq!(result.instr_info[&0x1005].detail, Detail::Target(0x1008));
    assert!(result.functions.funcs[&0x1000].returns.contains(&0x1008));
    assert_eq!(result.functions.funcs[&0x1000].return_values[&0x1008], 0x1008);

    let mut config = Config::new();
    config.x86.emulation_enabled = false;
    let plain = run(&binary, &config).unwrap();
    assert_eq!(addresses(&plain), vec![0x1000, 0x1005]);
    assert_eq!(plain.instr_info[&0x1005].detail, Detail::Unresolved);
}

#[test]
fn two_runs_give_the_same_result() {
    let first = run(&two_functions(), &Config::new()).unwrap();
    let second = run(&two_functions(), &Config::new()).unwrap();
    assert_eq!(first.instr_info, second.instr_info);
    assert_eq!(first.functions, second.functions);
    assert_eq!(first.unresolved, second.unresolved);
}

#[test]
fn every_instruction_lies_within_the_image() {
    let binary = shellcode();
    let result = run(&binary, &Config::new()).unwrap();
    for (address, info) in result.instr_info.iter() {
        assert_eq!(info.instr.address, *address);
        assert!(info.instr.size >= 1);
        assert!(*address >= 0x1000);
        assert!(*address + info.instr.size as u64 <= 0x1000 + binary.len() as u64);
    }
}

#[test]
fn an_instruction_that_runs_over_the_end_is_not_recorded() {
    let result = run(&[0x90, 0xb8, 0x01, 0x00], &Config::new()).unwrap();
    assert_eq!(addresses(&result), vec![0x1000]);
}

#[test]
fn fallback_passes_cover_the_pass_with_emulation() {
    // 0x00: jmp 0x07 (over two bytes of data that decode as code); 0x07: ret
    let binary = [0xeb, 0x05, 0x90, 0x90, 0x06, 0x06, 0x06, 0xc3];
    let with = run(&binary, &Config::new()).unwrap();
    let mut config = Config::new();
    config.x86.emulation_enabled = false;
    config.x86.entry_point = 0;
    let without = run(&binary, &config).unwrap();
    for address in with.instr_info.keys() {
        assert!(without.instr_info.contains_key(address));
    }
    assert_eq!(addresses(&with), vec![0x1000, 0x1007]);
    assert_eq!(addresses(&without), vec![0x1000, 0x1007]);
}

#[test]
fn fallback_pass_starts_at_the_start_of_code() {
    // entry at 0x04 (ret); the start of the buffer is reached by the second pass only
    let binary = [0x90, 0x90, 0x90, 0x06, 0xc3];
    let mut config = Config::new();
    config.x86.entry_point = 4;
    let with = run(&binary, &config).unwrap();
    assert_eq!(addresses(&with), vec![0x1004]);
    config.x86.emulation_enabled = false;
    let without = run(&binary, &config).unwrap();
    assert_eq!(addresses(&without), vec![0x1000, 0x1001, 0x1002, 0x1004]);
    assert_eq!(without.functions.funcs.len(), 1);
    assert_eq!(without.functions.funcs[&0x1004].name, "EntryPoint");
}

#[test]
fn loop_bound_of_zero_truncates_every_successor() {
    let mut config = Config::new();
    config.x86.loop_default_case = 0;
    let result = run(&shellcode(), &config).unwrap();
    assert_eq!(addresses(&result), vec![0x1000]);
    assert_eq!(result.truncated, 1);
}

#[test]
fn a_loop_ends_at_the_instruction_already_recorded() {
    // 0x00: nop; 0x01: jmp 0x00
    let result = run(&[0x90, 0xeb, 0xfd], &Config::new()).unwrap();
    assert_eq!(addresses(&result), vec![0x1000, 0x1001]);
    assert_eq!(result.instr_info[&0x1001].detail, Detail::Target(0x1000));
    assert_eq!(result.functions.funcs[&0x1000].jumps[&0x1001].left, -3);
    assert_eq!(result.truncated, 0);
}

#[test]
fn options_place_image_and_entry_point() {
    let mut config = Config::new();
    config.x86.start_address = 0x400000;
    config.x86.entry_point = 2;
    let result = run(&[0x06, 0x06, 0xc3], &config).unwrap();
    assert_eq!(result.base, 0x400000);
    assert_eq!(addresses(&result), vec![0x400002]);
    assert_eq!(result.functions.funcs[&0x400002].name, "EntryPoint");
    assert_eq!(result.header.stack_size, 0x200000);
    config.x86.stack_size = 0x1000;
    let small = run(&[0x06, 0x06, 0xc3], &config).unwrap();
    assert_eq!(small.header.stack_size, 0x1000);
}

#[test]
fn push_and_pop_go_through_the_stack_region() {
    // mov eax, 0x100a; push eax; pop ebx; jmp ebx; filler; 0x0a: ret
    let binary = [0xb8, 0x0a, 0x10, 0x00, 0x00, 0x50, 0x5b, 0xff, 0xe3, 0x06, 0xc3];
    let result = run(&binary, &Config::new()).unwrap();
    assert_eq!(result.instr_info[&0x1007].detail, Detail::Target(0x100a));
    assert!(result.instr_info.contains_key(&0x100a));
}

#[test]
fn unsupported_containers_give_no_result() {
    let elf = [0x7f, 0x45, 0x4c, 0x46, 0x02, 0x02, 0x01, 0x00];
    assert!(run(&elf, &Config::new()).is_none());
    let macho = [0xfe, 0xed, 0xfa, 0xce, 0x00];
    assert!(run(&macho, &Config::new()).is_none());
    let pe = [0x4d, 0x5a, 0x90, 0x00];
    assert!(run(&pe, &Config::new()).is_none());
}

#[test]
fn other_architectures_give_no_result() {
    let result = analyze(
        &Arch::ArchARM,
        &Mode::Mode32,
        &[0xc3],
        &Config::new(),
        no_loader(),
        &decode,
        &no_names,
    );
    assert!(result.is_none());
}

fn pe_header(sections: Vec<Section>) -> Header {
    let mut header = Header::new();
    header.binary_type = BinaryType::PEEXE;
    header.image_base = 0x400000;
    header.base_of_code = 0x1000;
    header.base_of_data = 0x2000;
    header.address_of_entry_point = 0x1000;
    header.stack_size = 0x1000;
    header.section_table = Some(sections);
    header
}

fn section(name: &str, virtual_address: u64, raw_offset: u64, raw_size: u64) -> Section {
    Section { name: name.to_string(), virtual_address, virtual_size: raw_size, raw_offset, raw_size }
}

#[test]
fn pe_image_is_mapped_by_its_sections() {
    // file: "MZ", two bytes of padding, then code (call [0x402000]; ret), then a pointer
    let mut binary = vec![0x4d, 0x5a, 0x00, 0x00];
    binary.extend_from_slice(&[0xff, 0x15, 0x00, 0x20, 0x40, 0x00, 0xc3]);
    binary.extend_from_slice(&[0x06, 0x10, 0x40, 0x00]);
    let header = pe_header(vec![section(".text", 0x1000, 4, 7), section(".data", 0x2000, 11, 4)]);
    let result = analyze(
        &Arch::ArchX86,
        &Mode::Mode32,
        &binary,
        &Config::new(),
        Ok(header),
        &decode,
        &no_names,
    )
    .unwrap();
    assert_eq!(result.header.binary_type, BinaryType::PEEXE);
    assert_eq!(result.base, 0x400000);
    // with emulation the call through the memory word is followed
    assert_eq!(addresses(&result), vec![0x401000, 0x401006]);
    assert_eq!(result.instr_info[&0x401000].detail, Detail::Target(0x401006));
    assert!(result.functions.funcs[&0x401006].xrefs.contains(&0x401000));
}

#[test]
fn unresolved_call_through_memory_is_inferred_afterwards() {
    // 0x401000: call [0x402000]; 0x401006: ret; the word at 0x402000 points at 0x401006,
    // which the pass from the start of data reaches: the data section holds "ret" too.
    let mut binary = vec![0x4d, 0x5a, 0x00, 0x00];
    binary.extend_from_slice(&[0xff, 0x15, 0x00, 0x20, 0x40, 0x00, 0xc3]);
    binary.extend_from_slice(&[0x06, 0x10, 0x40, 0x00]);
    let mut header =
        pe_header(vec![section(".text", 0x1000, 4, 7), section(".data", 0x2000, 11, 4)]);
    header.base_of_code = 0x1006;
    let mut config = Config::new();
    config.x86.emulation_enabled = false;
    let result = analyze(
        &Arch::ArchX86,
        &Mode::Mode32,
        &binary,
        &config,
        Ok(header),
        &decode,
        &no_names,
    )
    .unwrap();
    assert_eq!(addresses(&result), vec![0x401000, 0x401006]);
    assert_eq!(result.unresolved, vec![0x401000]);
    assert_eq!(result.instr_info[&0x401000].detail, Detail::Target(0x401006));
    assert!(result.functions.funcs[&0x401006].xrefs.contains(&0x401000));
}

#[test]
fn pe_section_outside_the_file_gives_no_result() {
    let binary = vec![0x4d, 0x5a, 0x00, 0x00, 0xc3];
    let header = pe_header(vec![section(".text", 0x1000, 4, 2)]);
    let result = analyze(
        &Arch::ArchX86,
        &Mode::Mode32,
        &binary,
        &Config::new(),
        Ok(header),
        &decode,
        &no_names,
    );
    assert!(result.is_none());
}

#[test]
fn pe_header_without_entry_point_gives_no_result() {
    let binary = vec![0x4d, 0x5a, 0x00, 0x00, 0xc3];
    let mut header = pe_header(vec![section(".text", 0x1000, 4, 1)]);
    header.address_of_entry_point = 0;
    let result = analyze(
        &Arch::ArchX86,
        &Mode::Mode32,
        &binary,
        &Config::new(),
        Ok(header),
        &decode,
        &no_names,
    );
    assert!(result.is_none());
}

#[test]
fn matcher_names_functions_and_drops_none() {
    let names = |table: &FunctionTable, _memory: &AddressSpace| -> Vec<Rename> {
        let mut out = Vec::new();
        for address in table.funcs.keys() {
            out.push(Rename { address: *address, name: format!("sub_{:x}", address) });
        }
        out.push(Rename { address: 0x9999, name: "absent".to_string() });
        out
    };
    let mut config = Config::new();
    config.x86.flirt_enabled = true;
    let result = analyze(
        &Arch::ArchX86,
        &Mode::Mode32,
        &two_functions(),
        &config,
        no_loader(),
        &decode,
        &names,
    )
    .unwrap();
    assert_eq!(result.functions.funcs.len(), 2);
    assert_eq!(result.functions.funcs[&0x1000].name, "sub_1000");
    assert_eq!(result.functions.funcs[&0x1010].name, "sub_1010");
    assert!(!result.functions.funcs.contains_key(&0x9999));

    config.x86.flirt_enabled = false;
    let plain = analyze(
        &Arch::ArchX86,
        &Mode::Mode32,
        &two_functions(),
        &config,
        no_loader(),
        &decode,
        &names,
    )
    .unwrap();
    assert_eq!(plain.functions.funcs[&0x1000].name, "EntryPoint");
    assert_eq!(plain.functions.funcs[&0x1010].name, "");
}

fn engine_over(binary: &[u8]) -> (Engine, WorkItem) {
    let mut memory = AddressSpace::new();
    memory.register(0x1000, MemoryType::Image, true, binary.to_vec()).unwrap();
    let engine = Engine::new(Mode::Mode32, memory);
    let mut header = Header::new();
    header.stack_size = 0;
    let item = seed_item(&header, &Config::new(), 0x1000, Some(0x1000), AnalysisType::Code);
    (engine, item)
}

#[test]
fn advance_takes_only_an_instruction_at_the_item() {
    let (mut engine, item) = engine_over(&[0x90, 0x90]);
    let elsewhere = decode(&[0x90], 0x1001, Mode::Mode32);
    engine.advance(item, 2, elsewhere);
    assert!(engine.instr_info.is_empty());
    assert!(engine.queue.is_empty());

    let (mut engine, item) = engine_over(&[0x90, 0x90]);
    engine.advance(item, 2, Err(DecodeError::Invalid));
    assert!(engine.instr_info.is_empty());

    let (mut engine, item) = engine_over(&[0x90, 0x90]);
    let too_long = decode(&[0xb8, 1, 0, 0, 0], 0x1000, Mode::Mode32);
    engine.advance(item, 2, too_long);
    assert!(engine.instr_info.is_empty());

    let (mut engine, item) = engine_over(&[0x90, 0x90]);
    engine.advance(item, 2, decode(&[0x90], 0x1000, Mode::Mode32));
    assert_eq!(engine.instr_info.len(), 1);
    assert_eq!(engine.queue.len(), 1);
    assert_eq!(engine.queue[0].offset, 0x1001);
    assert_eq!(engine.queue[0].loop_state.forward_addr(), &vec![0x1001]);
}

#[test]
fn step_and_run_drain_the_queue() {
    let (mut engine, item) = engine_over(&[0x90, 0x74, 0x01, 0x90, 0xc3]);
    assert!(!engine.step(&decode));
    engine.seed(item);
    assert!(engine.step(&decode));
    assert_eq!(engine.instr_info.len(), 1);
    engine.run(&decode);
    assert!(engine.queue.is_empty());
    assert_eq!(engine.instr_info.keys().copied().collect::<Vec<u64>>(), vec![
        0x1000, 0x1001, 0x1003, 0x1004
    ]);
    assert!(engine.functions.funcs[&0x1000].returns.contains(&0x1004));
}
