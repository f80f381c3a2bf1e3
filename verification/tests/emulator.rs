use dcpu::assembler::linker::link;
use dcpu::assembler::types::{Expression, Num, ParsedInstruction, ParsedItem, ParsedValue};
use dcpu::emulator::cpu::{Cpu, CpuError, Device};
use dcpu::types::{BasicOp, Instruction, Register, SpecialOp, Value};

fn lit16(n: u16) -> ParsedValue {
    ParsedValue::Litteral(Expression::Num(Num::U(n)))
}

fn basic(op: BasicOp, b: ParsedValue, a: ParsedValue) -> ParsedItem {
    ParsedItem::ParsedInstruction(ParsedInstruction::BasicOp(op, b, a))
}

fn boot(prog: &[ParsedItem]) -> Cpu {
    let bin = link(prog).unwrap();
    let mut cpu = Cpu::new();
    cpu.load(&bin, 0);
    cpu
}

fn load_instructions(ins: &[Instruction]) -> Cpu {
    let mut bin = Vec::new();
    for i in ins {
        i.encode(&mut bin);
    }
    let mut cpu = Cpu::new();
    cpu.load(&bin, 0);
    cpu
}

#[test]
fn s1_runs_two_sets() {
    let prog = vec![
        basic(BasicOp::SET, ParsedValue::Reg(Register::A), lit16(1)),
        basic(
            BasicOp::SET,
            ParsedValue::Reg(Register::B),
            ParsedValue::Reg(Register::A),
        ),
    ];
    let mut cpu = boot(&prog);
    cpu.tick().unwrap();
    cpu.tick().unwrap();
    assert_eq!(cpu.regs[0], 1);
    assert_eq!(cpu.regs[1], 1);
}

#[test]
fn s2_self_jump_two_cycles() {
    let prog = vec![
        ParsedItem::LabelDecl("start".to_string()),
        basic(
            BasicOp::SET,
            ParsedValue::PC,
            ParsedValue::Litteral(Expression::Label("start".to_string())),
        ),
    ];
    let mut cpu = boot(&prog);
    let act = cpu.tick().unwrap();
    assert_eq!(cpu.pc, 0);
    assert_eq!(act.cycles, 2);
    assert_eq!(cpu.cycles, 2);
}

#[test]
fn s3_count_to_ten() {
    let prog = vec![
        ParsedItem::LabelDecl("loop".to_string()),
        basic(BasicOp::ADD, ParsedValue::Reg(Register::A), lit16(1)),
        basic(BasicOp::IFN, ParsedValue::Reg(Register::A), lit16(10)),
        basic(
            BasicOp::SET,
            ParsedValue::PC,
            ParsedValue::Litteral(Expression::Label("loop".to_string())),
        ),
    ];
    let mut cpu = boot(&prog);
    for _ in 0..30 {
        cpu.tick().unwrap();
    }
    assert_eq!(cpu.regs[0], 10);
    assert_eq!(cpu.pc, 3);
}

#[test]
fn s6_skip_chains_through_conditionals() {
    // IFE A, 1 is false with A = 0, so both following instructions fall.
    let ins = [
        Instruction::BasicOp(BasicOp::IFE, Value::Reg(Register::A), Value::Litteral(1)),
        Instruction::BasicOp(BasicOp::IFE, Value::Reg(Register::A), Value::Litteral(0)),
        Instruction::BasicOp(BasicOp::SET, Value::Reg(Register::A), Value::Litteral(1)),
    ];
    let mut cpu = load_instructions(&ins);
    let first = cpu.tick().unwrap();
    assert_eq!(first.cycles, 3);
    assert!(cpu.skip);
    let second = cpu.tick().unwrap();
    assert_eq!(second.cycles, 1);
    assert!(cpu.skip);
    let third = cpu.tick().unwrap();
    assert_eq!(third.cycles, 1);
    assert!(!cpu.skip);
    assert_eq!(cpu.regs[0], 0);
    assert_eq!(cpu.pc, 3);
}

#[test]
fn true_conditional_does_not_skip() {
    let ins = [
        Instruction::BasicOp(BasicOp::IFE, Value::Reg(Register::A), Value::Litteral(0)),
        Instruction::BasicOp(BasicOp::SET, Value::Reg(Register::A), Value::Litteral(9)),
    ];
    let mut cpu = load_instructions(&ins);
    cpu.tick().unwrap();
    assert!(!cpu.skip);
    cpu.tick().unwrap();
    assert_eq!(cpu.regs[0], 9);
}

#[test]
fn push_and_pop_wrap_the_stack() {
    let ins = [
        Instruction::BasicOp(BasicOp::SET, Value::Push, Value::Litteral(5)),
        Instruction::BasicOp(BasicOp::SET, Value::Reg(Register::X), Value::Push),
    ];
    let mut cpu = load_instructions(&ins);
    cpu.tick().unwrap();
    assert_eq!(cpu.sp, 0xffff);
    assert_eq!(cpu.mem[0xffff], 5);
    cpu.tick().unwrap();
    assert_eq!(cpu.sp, 0);
    assert_eq!(cpu.regs[3], 5);
}

#[test]
fn add_and_sub_set_the_overflow_register() {
    let ins = [
        Instruction::BasicOp(BasicOp::SET, Value::Reg(Register::A), Value::Litteral(0xfff0)),
        Instruction::BasicOp(BasicOp::ADD, Value::Reg(Register::A), Value::Litteral(0x20)),
        Instruction::BasicOp(BasicOp::SUB, Value::Reg(Register::B), Value::Litteral(1)),
    ];
    let mut cpu = load_instructions(&ins);
    cpu.tick().unwrap();
    cpu.tick().unwrap();
    assert_eq!(cpu.regs[0], 0x10);
    assert_eq!(cpu.ex, 1);
    cpu.tick().unwrap();
    assert_eq!(cpu.regs[1], 0xffff);
    assert_eq!(cpu.ex, 0xffff);
}

#[test]
fn mul_and_mli_fill_ex_with_the_high_half() {
    let ins = [
        Instruction::BasicOp(BasicOp::SET, Value::Reg(Register::A), Value::AtAddr(0x100)),
        Instruction::BasicOp(BasicOp::MUL, Value::Reg(Register::A), Value::AtAddr(0x101)),
    ];
    let mut cpu = load_instructions(&ins);
    cpu.mem[0x100] = 0x8000;
    cpu.mem[0x101] = 4;
    cpu.tick().unwrap();
    cpu.tick().unwrap();
    assert_eq!(cpu.regs[0], 0);
    assert_eq!(cpu.ex, 2);

    // MLI treats the words as signed: -1 * 2 is -2 with EX all ones.
    let ins2 = [
        Instruction::BasicOp(BasicOp::SET, Value::Reg(Register::A), Value::Litteral(0xffff)),
        Instruction::BasicOp(BasicOp::MLI, Value::Reg(Register::A), Value::AtAddr(0x100)),
    ];
    let mut cpu2 = load_instructions(&ins2);
    cpu2.mem[0x100] = 2;
    cpu2.tick().unwrap();
    cpu2.tick().unwrap();
    assert_eq!(cpu2.regs[0], 0xfffe);
    assert_eq!(cpu2.ex, 0xffff);
}

#[test]
fn div_by_zero_zeroes_result_and_ex() {
    let ins = [
        Instruction::BasicOp(BasicOp::SET, Value::Reg(Register::A), Value::Litteral(7)),
        Instruction::BasicOp(BasicOp::DIV, Value::Reg(Register::A), Value::Litteral(0)),
    ];
    let mut cpu = load_instructions(&ins);
    cpu.tick().unwrap();
    cpu.tick().unwrap();
    assert_eq!(cpu.regs[0], 0);
    assert_eq!(cpu.ex, 0);
}

#[test]
fn dvi_divides_signed() {
    // -6 / 2 = -3.
    let ins = [
        Instruction::BasicOp(BasicOp::SET, Value::Reg(Register::A), Value::Litteral(0xfffa)),
        Instruction::BasicOp(BasicOp::DVI, Value::Reg(Register::A), Value::AtAddr(0x100)),
    ];
    let mut cpu = load_instructions(&ins);
    cpu.mem[0x100] = 2;
    cpu.tick().unwrap();
    cpu.tick().unwrap();
    assert_eq!(cpu.regs[0], 0xfffd);
}

#[test]
fn mdi_keeps_the_dividend_sign() {
    // -7 mod 16 is -7 under MDI.
    let ins = [
        Instruction::BasicOp(BasicOp::SET, Value::Reg(Register::A), Value::Litteral(0xfff9)),
        Instruction::BasicOp(BasicOp::MDI, Value::Reg(Register::A), Value::AtAddr(0x100)),
    ];
    let mut cpu = load_instructions(&ins);
    cpu.mem[0x100] = 16;
    cpu.tick().unwrap();
    cpu.tick().unwrap();
    assert_eq!(cpu.regs[0], 0xfff9);
}

#[test]
fn shifts_move_bits_through_ex() {
    let ins = [
        Instruction::BasicOp(BasicOp::SET, Value::Reg(Register::A), Value::Litteral(1)),
        Instruction::BasicOp(BasicOp::SHR, Value::Reg(Register::A), Value::Litteral(1)),
        Instruction::BasicOp(BasicOp::SET, Value::Reg(Register::B), Value::Litteral(3)),
        Instruction::BasicOp(BasicOp::SHL, Value::Reg(Register::B), Value::Litteral(15)),
    ];
    let mut cpu = load_instructions(&ins);
    cpu.tick().unwrap();
    cpu.tick().unwrap();
    assert_eq!(cpu.regs[0], 0);
    assert_eq!(cpu.ex, 0x8000);
    cpu.tick().unwrap();
    cpu.tick().unwrap();
    assert_eq!(cpu.regs[1], 0x8000);
    assert_eq!(cpu.ex, 1);
}

#[test]
fn asr_keeps_the_sign() {
    let ins = [
        Instruction::BasicOp(BasicOp::SET, Value::Reg(Register::A), Value::Litteral(0xfffc)),
        Instruction::BasicOp(BasicOp::ASR, Value::Reg(Register::A), Value::Litteral(1)),
    ];
    let mut cpu = load_instructions(&ins);
    cpu.tick().unwrap();
    cpu.tick().unwrap();
    // -4 >> 1 is -2 arithmetically.
    assert_eq!(cpu.regs[0], 0xfffe);
}

#[test]
fn signed_comparisons_order_negatives_low() {
    // IFA: -1 > 1 is false, so the SET is skipped.
    let ins = [
        Instruction::BasicOp(BasicOp::SET, Value::Reg(Register::A), Value::Litteral(0xffff)),
        Instruction::BasicOp(BasicOp::IFA, Value::Reg(Register::A), Value::Litteral(1)),
        Instruction::BasicOp(BasicOp::SET, Value::Reg(Register::B), Value::Litteral(1)),
        Instruction::BasicOp(BasicOp::IFU, Value::Reg(Register::A), Value::Litteral(1)),
        Instruction::BasicOp(BasicOp::SET, Value::Reg(Register::C), Value::Litteral(1)),
    ];
    let mut cpu = load_instructions(&ins);
    for _ in 0..5 {
        cpu.tick().unwrap();
    }
    assert_eq!(cpu.regs[1], 0, "IFA must fail on a negative left side");
    assert_eq!(cpu.regs[2], 1, "IFU must pass on a negative left side");
}

#[test]
fn sti_steps_i_and_j() {
    let ins = [Instruction::BasicOp(
        BasicOp::STI,
        Value::AtReg(Register::I),
        Value::Litteral(9),
    )];
    let mut cpu = load_instructions(&ins);
    cpu.tick().unwrap();
    assert_eq!(cpu.mem[0], 9, "the write goes to memory at the old I");
    assert_eq!(cpu.regs[6], 1);
    assert_eq!(cpu.regs[7], 1);
}

#[test]
fn jsr_pushes_the_return_address() {
    let ins = [Instruction::SpecialOp(SpecialOp::JSR, Value::Litteral(0x30))];
    let mut cpu = load_instructions(&ins);
    cpu.tick().unwrap();
    assert_eq!(cpu.pc, 0x30);
    assert_eq!(cpu.sp, 0xffff);
    // The return address is past both words of the JSR instruction.
    assert_eq!(cpu.mem[0xffff], 2);
}

#[test]
fn interrupts_wait_until_ia_is_set() {
    let mut cpu = Cpu::new();
    // A harmless program: SET A, 2 at 0, and a handler RFI at 0x10.
    let mut bin = Vec::new();
    Instruction::BasicOp(BasicOp::SET, Value::Reg(Register::A), Value::Litteral(2))
        .encode(&mut bin);
    cpu.load(&bin, 0);
    let mut handler = Vec::new();
    Instruction::SpecialOp(SpecialOp::RFI, Value::Litteral(0)).encode(&mut handler);
    cpu.load(&handler, 0x10);

    cpu.interrupt(0x77).unwrap();
    cpu.tick().unwrap();
    // IA is 0: the message stays queued and the program runs on.
    assert_eq!(cpu.regs[0], 2);
    assert_eq!(cpu.queue.len(), 1);

    cpu.ia = 0x10;
    cpu.pc = 0;
    cpu.tick().unwrap();
    // The dispatch ran first: A holds the message, PC entered the handler
    // and then RFI returned to 0 with A restored.
    assert_eq!(cpu.regs[0], 2);
    assert_eq!(cpu.pc, 0);
    assert!(!cpu.queueing);
    assert!(cpu.queue.is_empty());
}

#[test]
fn queue_overflow_catches_fire() {
    let mut cpu = Cpu::new();
    for k in 0..256 {
        cpu.interrupt(k as u16).unwrap();
    }
    assert_eq!(cpu.interrupt(999), Err(CpuError::OnFire));
}

#[test]
fn hardware_bus_reports_devices() {
    let ins = [
        Instruction::SpecialOp(SpecialOp::HWN, Value::Reg(Register::Z)),
        Instruction::SpecialOp(SpecialOp::HWQ, Value::Litteral(0)),
        Instruction::SpecialOp(SpecialOp::HWI, Value::Litteral(0)),
    ];
    let mut cpu = load_instructions(&ins);
    cpu.attach(Device { id: 0x7349f615, version: 0x1802, manufacturer: 0x1c6c8b36 });
    cpu.tick().unwrap();
    assert_eq!(cpu.regs[5], 1);
    cpu.tick().unwrap();
    assert_eq!(cpu.regs[0], 0xf615);
    assert_eq!(cpu.regs[1], 0x7349);
    assert_eq!(cpu.regs[2], 0x1802);
    assert_eq!(cpu.regs[3], 0x8b36);
    assert_eq!(cpu.regs[4], 0x1c6c);
    let act = cpu.tick().unwrap();
    assert_eq!(act.hardware, Some(0));
}

#[test]
fn invalid_opcode_faults() {
    let mut cpu = Cpu::new();
    cpu.mem[0] = 0x0019;
    assert_eq!(cpu.tick(), Err(CpuError::InvalidOpcode(0x0019)));
}

#[test]
fn skipped_special_clears_the_flag() {
    let ins = [
        Instruction::BasicOp(BasicOp::IFE, Value::Reg(Register::A), Value::Litteral(1)),
        Instruction::SpecialOp(SpecialOp::JSR, Value::Litteral(0x30)),
        Instruction::BasicOp(BasicOp::SET, Value::Reg(Register::B), Value::Litteral(5)),
    ];
    let mut cpu = load_instructions(&ins);
    cpu.tick().unwrap();
    assert!(cpu.skip);
    cpu.tick().unwrap();
    assert!(!cpu.skip, "a skipped non-conditional ends the chain");
    cpu.tick().unwrap();
    assert_eq!(cpu.regs[1], 5);
    // IFE and SET are one word each; the skipped JSR carries an extra word.
    assert_eq!(cpu.pc, 4);
}

#[test]
fn adx_and_sbx_carry_through_ex() {
    let ins = [
        Instruction::BasicOp(BasicOp::SET, Value::Reg(Register::A), Value::Litteral(0xffff)),
        Instruction::BasicOp(BasicOp::ADD, Value::Reg(Register::A), Value::Litteral(2)),
        Instruction::BasicOp(BasicOp::ADX, Value::Reg(Register::B), Value::Litteral(5)),
        Instruction::BasicOp(BasicOp::SBX, Value::Reg(Register::C), Value::Litteral(7)),
    ];
    let mut cpu = load_instructions(&ins);
    cpu.tick().unwrap();
    cpu.tick().unwrap();
    assert_eq!(cpu.regs[0], 1);
    assert_eq!(cpu.ex, 1);
    cpu.tick().unwrap();
    // B = 0 + 5 + EX(1) = 6, no carry.
    assert_eq!(cpu.regs[1], 6);
    assert_eq!(cpu.ex, 0);
    cpu.tick().unwrap();
    // C = 0 - 7 + EX(0) underflows.
    assert_eq!(cpu.regs[2], 0xfff9);
    assert_eq!(cpu.ex, 0xffff);
}

#[test]
fn software_interrupts_respect_queueing() {
    // IAS handler; IAQ 1; INT 0x42: the message must wait in the queue.
    let ins = [
        Instruction::SpecialOp(SpecialOp::IAS, Value::Litteral(0x40)),
        Instruction::SpecialOp(SpecialOp::IAQ, Value::Litteral(1)),
        Instruction::SpecialOp(SpecialOp::INT, Value::Litteral(0x42)),
        Instruction::BasicOp(BasicOp::SET, Value::Reg(Register::B), Value::Litteral(3)),
    ];
    let mut cpu = load_instructions(&ins);
    cpu.tick().unwrap();
    assert_eq!(cpu.ia, 0x40);
    cpu.tick().unwrap();
    assert!(cpu.queueing);
    cpu.tick().unwrap();
    assert_eq!(cpu.queue, vec![0x42]);
    cpu.tick().unwrap();
    assert_eq!(cpu.regs[1], 3, "queued interrupts must not preempt");
    assert_eq!(cpu.queue.len(), 1);

    // Turning queueing off lets the dispatch run on the next tick; the
    // handler at 0x40 holds SET A, A, which encodes as a single word 1.
    cpu.mem[0x40] = 1;
    cpu.queueing = false;
    cpu.tick().unwrap();
    assert_eq!(cpu.pc, 0x41, "the handler entry is past the fetched word");
    assert_eq!(cpu.regs[0], 0x42, "A carries the message");
    assert!(cpu.queueing, "dispatch turns queueing back on");
    assert!(cpu.queue.is_empty());
}

#[test]
fn iag_reads_the_interrupt_address() {
    let ins = [
        Instruction::SpecialOp(SpecialOp::IAS, Value::Litteral(0x99)),
        Instruction::SpecialOp(SpecialOp::IAG, Value::Reg(Register::Y)),
    ];
    let mut cpu = load_instructions(&ins);
    cpu.tick().unwrap();
    cpu.tick().unwrap();
    assert_eq!(cpu.regs[4], 0x99);
}
