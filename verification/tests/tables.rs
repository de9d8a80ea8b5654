use xori::configuration::{Config, OutputConfig};
use xori::functions::{displacement, FunctionTable, Jump};
use xori::header::{BinaryType, Header, MAX_LOOPS, STACK_ADDRESS};
use xori::disasm::Mode;
use xori::engine::unwind;
use xori::loops::LoopState;
use xori::model::Frame;
use xori::render::hex_array;

#[test]
fn loop_guard_lets_an_address_pass_max_loops_times() {
    let mut guard = LoopState::new(3);
    assert!(guard.should_visit(0x10));
    assert!(guard.should_visit(0x10));
    assert!(guard.should_visit(0x10));
    assert!(!guard.should_visit(0x10));
    assert!(!guard.should_visit(0x10));
    assert!(guard.should_visit(0x20));
    assert_eq!(guard.forward_addr(), &vec![0x10, 0x20]);
    assert_eq!(guard.loop_tracker(), &vec![(0x10, 3)]);
    assert_eq!(guard.max_loops(), 3);
}

#[test]
fn loop_guard_with_small_bounds() {
    let mut none = LoopState::new(0);
    assert!(!none.should_visit(1));
    assert!(none.forward_addr().is_empty());
    let mut once = LoopState::new(1);
    assert!(once.should_visit(1));
    assert!(!once.should_visit(1));
    assert!(once.loop_tracker().is_empty());
}

#[test]
fn forked_lineages_count_apart() {
    let mut first = LoopState::new(2);
    assert!(first.should_visit(5));
    let mut second = first.fork();
    assert!(first.should_visit(5));
    assert!(!first.should_visit(5));
    assert!(second.should_visit(5));
    assert!(!second.should_visit(5));
}

#[test]
fn get_or_create_is_idempotent() {
    let mut table = FunctionTable::new();
    table.get_or_create(0x40);
    table.add_xref(0x40, 0x10);
    let before = table.clone();
    table.get_or_create(0x40);
    assert_eq!(table, before);
    assert_eq!(table.len(), 1);
    assert!(table.contains(0x40));
    assert!(!table.contains(0x41));
    assert_eq!(table.get(0x40).unwrap().address, 0x40);
    assert!(table.get(0x41).is_none());
}

#[test]
fn table_notes_calls_returns_and_jumps() {
    let mut table = FunctionTable::new();
    table.add_xref(0x40, 0x10);
    table.add_xref(0x40, 0x20);
    table.add_xref(0x40, 0x10);
    table.add_return(0x40, 0x4f);
    table.set_return_value(0x40, 0x4f, 7);
    table.add_jump(0x40, 0x44, -4);
    table.add_jump(0x40, 0x44, 9);
    table.add_jump(0x40, 0x44, 2);
    let f = table.get(0x40).unwrap();
    assert_eq!(f.xrefs.iter().copied().collect::<Vec<u64>>(), vec![0x10, 0x20]);
    assert!(f.returns.contains(&0x4f));
    assert_eq!(f.return_values[&0x4f], 7);
    assert_eq!(f.jumps[&0x44], Jump { left: -4, right: 9 });
    assert_eq!(f.name, "");
    assert_eq!(f.argc, 0);
}

#[test]
fn rename_touches_only_functions_that_are_there() {
    let mut table = FunctionTable::new();
    table.get_or_create(1);
    assert!(table.rename(1, "main".to_string()));
    assert!(!table.rename(2, "other".to_string()));
    assert_eq!(table.len(), 1);
    assert_eq!(table.get(1).unwrap().name, "main");
}

#[test]
fn displacement_is_signed_and_held_to_range() {
    assert_eq!(displacement(0x1005, 0x1023), 30);
    assert_eq!(displacement(0x1003, 0x1000), -3);
    assert_eq!(displacement(5, 5), 0);
    assert_eq!(displacement(0, u64::MAX), i64::MAX);
    assert_eq!(displacement(u64::MAX, 0), i64::MIN);
    assert_eq!(displacement(0, 1 << 63), i64::MAX);
    assert_eq!(displacement(1 << 63, 0), i64::MIN);
    assert_eq!(displacement((1 << 63) - 1, 0), -i64::MAX);
}

#[test]
fn return_unwinds_to_the_nearest_matching_frame() {
    let frames = vec![
        Frame { return_addr: 0x10, caller: None },
        Frame { return_addr: 0x20, caller: Some(1) },
        Frame { return_addr: 0x10, caller: Some(2) },
        Frame { return_addr: 0x30, caller: Some(3) },
    ];
    assert_eq!(unwind(&frames, None), Some(3));
    assert_eq!(unwind(&frames, Some(0x30)), Some(3));
    assert_eq!(unwind(&frames, Some(0x10)), Some(2));
    assert_eq!(unwind(&frames, Some(0x20)), Some(1));
    assert_eq!(unwind(&frames, Some(0x99)), Some(3));
    assert_eq!(unwind(&Vec::new(), Some(0x10)), None);
    assert_eq!(unwind(&Vec::new(), None), None);
}

#[test]
fn header_defaults() {
    let header = Header::new();
    assert_eq!(header.binary_type, BinaryType::BIN);
    assert_eq!(header.image_base, 0x1000);
    assert_eq!(header.stack_size, STACK_ADDRESS);
    assert_eq!(header.mode, Mode::Mode32);
    assert_eq!(header.address_of_entry_point, 0);
    assert!(header.import_table.is_none());
    assert!(header.section_table.is_none());
    assert_eq!(STACK_ADDRESS, 0x200000);
    assert_eq!(MAX_LOOPS, 10);
}

#[test]
fn identify_goes_by_the_leading_bytes() {
    let mut header = Header::new();
    assert_eq!(header.identify(&[0x7f, 0x45, 0x4c, 0x46, 0x02, 0x02, 0x01, 0x00]), BinaryType::ELF);
    assert_eq!(header.binary_type, BinaryType::ELF);
    assert_eq!(header.identify(&[0x7f, 0x45, 0x4c, 0x46, 0x02, 0x02]), BinaryType::BIN);
    assert_eq!(header.identify(&[0x7f, 0x45, 0x4c, 0x46, 0x01, 0x01, 0x01]), BinaryType::BIN);
    assert_eq!(header.identify(&[0x4d, 0x5a]), BinaryType::PE);
    assert_eq!(header.identify(&[0x4d]), BinaryType::BIN);
    assert_eq!(header.identify(&[0xfe, 0xed, 0xfa, 0xce]), BinaryType::MACHO);
    assert_eq!(header.identify(&[0xfe, 0xed, 0xfa]), BinaryType::BIN);
    assert_eq!(header.identify(&[]), BinaryType::BIN);
    assert_eq!(header.binary_type, BinaryType::BIN);
}

#[test]
fn parse_refuses_what_is_not_supported() {
    let none = || -> Result<Header, String> { Err("no loader".to_string()) };
    let mut header = Header::new();
    assert_eq!(header.parse(&[0x90], none()), Ok(0));
    assert_eq!(header.binary_type, BinaryType::BIN);
    assert_eq!(
        header.parse(&[0x7f, 0x45, 0x4c, 0x46, 0x02, 0x02, 0x01], none()),
        Err("ELF is not supported yet".to_string())
    );
    assert_eq!(
        header.parse(&[0xfe, 0xed, 0xfa, 0xce], none()),
        Err("MACHO is not supported yet".to_string())
    );
    assert_eq!(header.parse(&[0x4d, 0x5a], none()), Err("no loader".to_string()));
    assert_eq!(header.binary_type, BinaryType::PE);
}

#[test]
fn parse_takes_the_header_of_the_loader() {
    let mut layout = Header::new();
    layout.binary_type = BinaryType::PEDLL;
    layout.image_base = 0x10000000;
    layout.address_of_entry_point = 0x1234;
    let mut header = Header::new();
    assert_eq!(header.parse(&[0x4d, 0x5a], Ok(layout)), Ok(0));
    assert_eq!(header.binary_type, BinaryType::PEDLL);
    assert_eq!(header.image_base, 0x10000000);
    assert_eq!(header.address_of_entry_point, 0x1234);

    let mut wrong = Header::new();
    wrong.binary_type = BinaryType::ELF;
    let mut header = Header::new();
    assert_eq!(header.parse(&[0x4d, 0x5a], Ok(wrong)), Ok(0));
    assert_eq!(header.binary_type, BinaryType::PE);
    assert!(BinaryType::PESYS.is_pe());
    assert!(!BinaryType::BIN.is_pe());
}

#[test]
fn config_defaults() {
    let config = Config::new();
    assert!(config.x86.emulation_enabled);
    assert!(!config.x86.flirt_enabled);
    assert_eq!(config.x86.loop_default_case, 10);
    assert_eq!(config.x86.stack_address, 0x200000);
    assert_eq!(config.x86.stack_size, 0);
    assert_eq!(config.x86.start_address, 0);
    assert_eq!(config.x86.entry_point, 0);
    assert_eq!(
        config.x86.output,
        OutputConfig { disassembly: true, functions: true, imports: true, disasm_json: true }
    );
}

#[test]
fn hex_array_renders_upper_case_pairs() {
    let mut bytes = [0u8; 16];
    bytes[0] = 0xe9;
    bytes[1] = 0x1e;
    bytes[2] = 0x00;
    bytes[3] = 0xff;
    bytes[4] = 0x0a;
    assert_eq!(hex_array(&bytes, 5), "E9 1E 00 FF 0A ");
    assert_eq!(hex_array(&bytes, 0), "");
    assert_eq!(hex_array(&bytes, 1), "E9 ");
    assert_eq!(hex_array(&[0xab; 16], 16), "AB ".repeat(16));
}
