use xori::cpu::{
    classify, wrap_diff, wrap_sum, wrap_value, CpuState, EmulationOutcome, RegValue,
};
use xori::disasm::{Flow, Instruction, Mode, Operand, Operation, Reg, Target};
use xori::memory::{AddressSpace, MemoryType};

fn instruction(flow: Flow, operation: Operation) -> Instruction {
    Instruction {
        address: 0x1000,
        size: 2,
        bytes: [0; 16],
        mnemonic: String::new(),
        op_str: String::new(),
        flow,
        operation,
    }
}

fn stack() -> AddressSpace {
    let mut space = AddressSpace::new();
    space.register(0x2000, MemoryType::Stack, true, vec![0; 0x100]).unwrap();
    space
}

fn cpu() -> CpuState {
    let mut cpu = CpuState::new();
    cpu.regs.esp = RegValue::known(0x2100);
    cpu
}

#[test]
fn arithmetic_wraps_at_the_address_width() {
    assert_eq!(wrap_sum(0xffff, 1, 16), 0);
    assert_eq!(wrap_sum(0xffff_ffff, 2, 32), 1);
    assert_eq!(wrap_sum(u64::MAX, 2, 64), 1);
    assert_eq!(wrap_sum(3, 4, 32), 7);
    assert_eq!(wrap_diff(0, 1, 16), 0xffff);
    assert_eq!(wrap_diff(0, 1, 32), 0xffff_ffff);
    assert_eq!(wrap_diff(0, 1, 64), u64::MAX);
    assert_eq!(wrap_diff(5, 3, 32), 2);
    assert_eq!(wrap_diff(0, 0x1_0000_0000, 32), 0);
    assert_eq!(wrap_value(0x1_2345_6789, 32), 0x2345_6789);
    assert_eq!(wrap_value(0x1_2345_6789, 16), 0x6789);
    assert_eq!(wrap_value(0x1_2345_6789, 64), 0x1_2345_6789);
    assert_eq!(Mode::Mode16.get_size(), 16);
    assert_eq!(Mode::Mode64.get_size(), 64);
}

#[test]
fn mov_and_add_follow_known_values() {
    let mut mem = stack();
    let mut cpu = cpu();
    let mov = instruction(
        Flow::Next,
        Operation::Mov { dst: Reg::Ax, src: Operand::Imm(0xffff_fffe) },
    );
    assert_eq!(cpu.apply(&mov, &mut mem), EmulationOutcome::Continue);
    assert_eq!(cpu.regs.eax, RegValue::known(0xffff_fffe));
    let add = instruction(Flow::Next, Operation::Add { dst: Reg::Ax, src: Operand::Imm(3) });
    cpu.apply(&add, &mut mem);
    assert_eq!(cpu.regs.eax, RegValue::known(1));
    assert!(cpu.flags.known && cpu.flags.carry && !cpu.flags.zero && !cpu.flags.sign);
    let sub = instruction(Flow::Next, Operation::Sub { dst: Reg::Ax, src: Operand::Imm(1) });
    cpu.apply(&sub, &mut mem);
    assert_eq!(cpu.regs.eax, RegValue::known(0));
    assert!(cpu.flags.zero && !cpu.flags.carry);
    cpu.apply(&sub, &mut mem);
    assert_eq!(cpu.regs.eax, RegValue::known(0xffff_ffff));
    assert!(cpu.flags.sign && cpu.flags.carry);
}

#[test]
fn arithmetic_on_an_unknown_register_stays_unknown() {
    let mut mem = stack();
    let mut cpu = cpu();
    let add = instruction(Flow::Next, Operation::Add { dst: Reg::Bx, src: Operand::Imm(3) });
    cpu.apply(&add, &mut mem);
    assert_eq!(cpu.regs.ebx, RegValue::unknown());
    assert!(!cpu.flags.known);
    let mov = instruction(Flow::Next, Operation::Mov { dst: Reg::Cx, src: Operand::Imm(7) });
    cpu.apply(&mov, &mut mem);
    let clobber = instruction(Flow::Next, Operation::Clobber { dst: Reg::Cx });
    cpu.apply(&clobber, &mut mem);
    assert_eq!(cpu.regs.ecx, RegValue::unknown());
}

#[test]
fn push_and_pop_move_the_stack_pointer() {
    let mut mem = stack();
    let mut cpu = cpu();
    cpu.regs.eax = RegValue::known(0x1234_5678);
    let push = instruction(Flow::Next, Operation::Push { src: Operand::Reg(Reg::Ax) });
    cpu.apply(&push, &mut mem);
    assert_eq!(cpu.regs.esp, RegValue::known(0x20fc));
    assert_eq!(mem.read(0x20fc, 4), Ok(vec![0x78, 0x56, 0x34, 0x12]));
    let pop = instruction(Flow::Next, Operation::Pop { dst: Reg::Dx });
    cpu.apply(&pop, &mut mem);
    assert_eq!(cpu.regs.edx, RegValue::known(0x1234_5678));
    assert_eq!(cpu.regs.esp, RegValue::known(0x2100));
    cpu.apply(&pop, &mut mem);
    assert_eq!(cpu.regs.edx, RegValue::unknown());
    assert_eq!(cpu.regs.esp, RegValue::known(0x2104));
}

#[test]
fn call_pushes_its_return_address_and_return_pops_it() {
    let mut mem = stack();
    let mut cpu = cpu();
    let call = instruction(Flow::Call(Target::Direct(0x1800)), Operation::Nop);
    assert_eq!(
        cpu.apply(&call, &mut mem),
        EmulationOutcome::Call { target: 0x1800, return_addr: 0x1002 }
    );
    assert_eq!(mem.read_word(0x20fc, 4), Some(0x1002));
    let ret = instruction(Flow::Return, Operation::Nop);
    assert_eq!(cpu.apply(&ret, &mut mem), EmulationOutcome::Return { target: Some(0x1002) });
    assert_eq!(cpu.regs.esp, RegValue::known(0x2100));
}

#[test]
fn indirect_targets_resolve_from_registers_and_memory() {
    let mut mem = stack();
    let mut cpu = cpu();
    let jump = instruction(Flow::Jump(Target::Reg(Reg::Si)), Operation::Nop);
    assert_eq!(cpu.apply(&jump, &mut mem), EmulationOutcome::IndirectUnresolved);
    cpu.regs.esi = RegValue::known(0x4444);
    assert_eq!(
        cpu.apply(&jump, &mut mem),
        EmulationOutcome::Branch { target: 0x4444, fallthrough: None }
    );
    mem.write_word(0x2010, 0x5555, 4);
    let through = instruction(Flow::Jump(Target::Mem(0x2010)), Operation::Nop);
    assert_eq!(
        cpu.apply(&through, &mut mem),
        EmulationOutcome::Branch { target: 0x5555, fallthrough: None }
    );
    let nowhere = instruction(Flow::Call(Target::Mem(0x9000)), Operation::Nop);
    assert_eq!(cpu.apply(&nowhere, &mut mem), EmulationOutcome::IndirectUnresolved);
    let cond = instruction(Flow::CondJump(0x1010), Operation::Nop);
    assert_eq!(
        cpu.apply(&cond, &mut mem),
        EmulationOutcome::Branch { target: 0x1010, fallthrough: Some(0x1002) }
    );
}

#[test]
fn classification_follows_direct_targets_only() {
    assert_eq!(classify(&instruction(Flow::Next, Operation::Nop)), EmulationOutcome::Continue);
    assert_eq!(
        classify(&instruction(Flow::Jump(Target::Direct(7)), Operation::Nop)),
        EmulationOutcome::Branch { target: 7, fallthrough: None }
    );
    assert_eq!(
        classify(&instruction(Flow::Jump(Target::Reg(Reg::Ax)), Operation::Nop)),
        EmulationOutcome::IndirectUnresolved
    );
    assert_eq!(
        classify(&instruction(Flow::Call(Target::Direct(9)), Operation::Nop)),
        EmulationOutcome::Call { target: 9, return_addr: 0x1002 }
    );
    assert_eq!(
        classify(&instruction(Flow::Call(Target::Mem(9)), Operation::Nop)),
        EmulationOutcome::IndirectUnresolved
    );
    assert_eq!(
        classify(&instruction(Flow::Return, Operation::Nop)),
        EmulationOutcome::Return { target: None }
    );
    let mut last = instruction(Flow::Next, Operation::Nop);
    last.address = u64::MAX;
    last.size = 1;
    assert_eq!(last.next(), 0);
    assert!(last.fits(u64::MAX, 1));
    assert!(!last.fits(u64::MAX, 0));
    assert!(!last.fits(0, 4));
}
