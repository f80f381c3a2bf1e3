use dcpu::assembler::linker::{link, extract_labels, Error};
use dcpu::assembler::types::{
    DatItem, Directive, Expression, Num, ParsedInstruction, ParsedItem, ParsedValue,
};
use dcpu::codec::decode;
use dcpu::types::{BasicOp, Instruction, Register, SpecialOp, Value};
use vstd::hash_map::StringHashMap;

fn lit(n: u16) -> ParsedValue {
    ParsedValue::Litteral(Expression::Num(Num::U(n)))
}

fn label(name: &str) -> ParsedValue {
    ParsedValue::Litteral(Expression::Label(name.to_string()))
}

fn set(b: ParsedValue, a: ParsedValue) -> ParsedItem {
    ParsedItem::ParsedInstruction(ParsedInstruction::BasicOp(BasicOp::SET, b, a))
}

#[test]
fn s1_two_sets_image() {
    let prog = vec![
        set(ParsedValue::Reg(Register::A), lit(1)),
        set(ParsedValue::Reg(Register::B), ParsedValue::Reg(Register::A)),
    ];
    let bin = link(&prog).unwrap();
    assert_eq!(bin, vec![0x8801, 0x0021]);
}

#[test]
fn s2_self_jump_is_one_word() {
    let prog = vec![
        ParsedItem::LabelDecl("start".to_string()),
        set(ParsedValue::PC, label("start")),
    ];
    let bin = link(&prog).unwrap();
    assert_eq!(bin, vec![0x8781]);
}

#[test]
fn s4_dat_string_zero_terminated() {
    let prog = vec![ParsedItem::Directive(Directive::Dat(vec![DatItem::S(
        "Hi".to_string(),
    )]))];
    let bin = link(&prog).unwrap();
    assert_eq!(bin, vec![0x48, 0x69, 0x00]);
}

#[test]
fn s5_forward_reference_converges() {
    // SET A, end ; :end  — the label lands at 1 and stays inline.
    let prog = vec![
        set(ParsedValue::Reg(Register::A), label("end")),
        ParsedItem::LabelDecl("end".to_string()),
    ];
    let bin = link(&prog).unwrap();
    assert_eq!(bin, vec![0x8801]);
}

#[test]
fn dat_numbers_and_org() {
    let prog = vec![
        ParsedItem::Directive(Directive::Org(3)),
        ParsedItem::Directive(Directive::Dat(vec![DatItem::N(7), DatItem::N(9)])),
        ParsedItem::Directive(Directive::Global),
        ParsedItem::Directive(Directive::Text),
        ParsedItem::Directive(Directive::BSS),
    ];
    let bin = link(&prog).unwrap();
    assert_eq!(bin, vec![0, 0, 0, 7, 9]);
}

#[test]
fn comments_emit_nothing() {
    let prog = vec![
        ParsedItem::Comment("nothing".to_string()),
        set(ParsedValue::Reg(Register::A), lit(2)),
    ];
    let bin = link(&prog).unwrap();
    assert_eq!(bin.len(), 1);
}

#[test]
fn duplicate_global_label_fails() {
    let prog = vec![
        ParsedItem::LabelDecl("x".to_string()),
        ParsedItem::LabelDecl("x".to_string()),
    ];
    match link(&prog) {
        Err(Error::DuplicatedLabel(s)) => assert_eq!(s, "x"),
        other => panic!("expected a duplicate-label error, got {:?}", other),
    }
}

#[test]
fn duplicate_local_label_fails() {
    let prog = vec![
        ParsedItem::LabelDecl("g".to_string()),
        ParsedItem::LocalLabelDecl("l".to_string()),
        ParsedItem::LocalLabelDecl("l".to_string()),
    ];
    match link(&prog) {
        Err(Error::DuplicatedLocalLabel(s)) => assert_eq!(s, "l"),
        other => panic!("expected a duplicate-local error, got {:?}", other),
    }
}

#[test]
fn same_local_label_in_two_scopes_is_fine() {
    let prog = vec![
        ParsedItem::LabelDecl("g1".to_string()),
        ParsedItem::LocalLabelDecl("l".to_string()),
        ParsedItem::LabelDecl("g2".to_string()),
        ParsedItem::LocalLabelDecl("l".to_string()),
    ];
    assert!(link(&prog).is_ok());
}

#[test]
fn local_before_global_fails() {
    let prog = vec![ParsedItem::LocalLabelDecl("l".to_string())];
    match link(&prog) {
        Err(Error::LocalBeforeGlobal(s)) => assert_eq!(s, "l"),
        other => panic!("expected a local-before-global error, got {:?}", other),
    }
}

#[test]
fn unknown_label_fails() {
    let prog = vec![set(ParsedValue::Reg(Register::A), label("nowhere"))];
    match link(&prog) {
        Err(Error::UnknownLabel(s)) => assert_eq!(s, "nowhere"),
        other => panic!("expected an unknown-label error, got {:?}", other),
    }
}

#[test]
fn unknown_local_label_fails() {
    let prog = vec![
        ParsedItem::LabelDecl("g".to_string()),
        set(
            ParsedValue::Reg(Register::A),
            ParsedValue::Litteral(Expression::LocalLabel("l".to_string())),
        ),
    ];
    match link(&prog) {
        Err(Error::UnknownLocalLabel(s)) => assert_eq!(s, "l"),
        other => panic!("expected an unknown-local error, got {:?}", other),
    }
}

#[test]
fn local_labels_resolve_in_their_scope() {
    let prog = vec![
        ParsedItem::LabelDecl("g".to_string()),
        ParsedItem::LocalLabelDecl("l".to_string()),
        set(
            ParsedValue::Reg(Register::A),
            ParsedValue::Litteral(Expression::LocalLabel("l".to_string())),
        ),
    ];
    // The local label sits at word 0, so the operand inlines literal 0.
    let bin = link(&prog).unwrap();
    assert_eq!(bin, vec![0x8401]);
}

#[test]
fn expression_division_by_zero_fails() {
    let prog = vec![set(
        ParsedValue::Reg(Register::A),
        ParsedValue::Litteral(Expression::Div(
            Box::new(Expression::Num(Num::U(4))),
            Box::new(Expression::Num(Num::U(0))),
        )),
    )];
    match link(&prog) {
        Err(Error::DivisionByZero) => {}
        other => panic!("expected a division-by-zero error, got {:?}", other),
    }
}

#[test]
fn image_past_address_space_diverges() {
    let prog = vec![
        ParsedItem::Directive(Directive::Org(0xffff)),
        ParsedItem::Directive(Directive::Org(0xffff)),
    ];
    match link(&prog) {
        Err(Error::LayoutDiverged) => {}
        other => panic!("expected a diverged layout, got {:?}", other),
    }
}

#[test]
fn expression_arithmetic_wraps() {
    let globals: StringHashMap<u16> = StringHashMap::new();
    let locals: StringHashMap<u16> = StringHashMap::new();
    let add = Expression::Add(
        Box::new(Expression::Num(Num::U(0xffff))),
        Box::new(Expression::Num(Num::U(2))),
    );
    assert_eq!(add.solve(&globals, &locals).unwrap(), 1);
    let sub = Expression::Sub(
        Box::new(Expression::Num(Num::U(0))),
        Box::new(Expression::Num(Num::U(1))),
    );
    assert_eq!(sub.solve(&globals, &locals).unwrap(), 0xffff);
    let mul = Expression::Mul(
        Box::new(Expression::Num(Num::U(0x8000))),
        Box::new(Expression::Num(Num::U(4))),
    );
    assert_eq!(mul.solve(&globals, &locals).unwrap(), 0);
    let shl = Expression::Shl(
        Box::new(Expression::Num(Num::U(1))),
        Box::new(Expression::Num(Num::U(16))),
    );
    assert_eq!(shl.solve(&globals, &locals).unwrap(), 0);
    let shr = Expression::Shr(
        Box::new(Expression::Num(Num::U(0x8000))),
        Box::new(Expression::Num(Num::U(15))),
    );
    assert_eq!(shr.solve(&globals, &locals).unwrap(), 1);
    let neg = Expression::Num(Num::I(-2));
    assert_eq!(neg.solve(&globals, &locals).unwrap(), 0xfffe);
}

#[test]
fn extract_labels_collects_scopes() {
    let prog = vec![
        ParsedItem::LabelDecl("a".to_string()),
        ParsedItem::LocalLabelDecl("l".to_string()),
        ParsedItem::LabelDecl("b".to_string()),
    ];
    let (globals, scopes) = extract_labels(&prog).unwrap();
    assert!(globals.contains_key("a"));
    assert!(globals.contains_key("b"));
    assert_eq!(scopes.len(), 2);
    assert!(scopes[0].contains_key("l"));
    assert!(!scopes[1].contains_key("l"));
}

#[test]
fn round_trip_concrete_instructions() {
    let cases = vec![
        Instruction::BasicOp(BasicOp::SET, Value::Reg(Register::A), Value::Litteral(1)),
        Instruction::BasicOp(BasicOp::ADD, Value::AtReg(Register::B), Value::Litteral(100)),
        Instruction::BasicOp(
            BasicOp::IFN,
            Value::AtRegPlus(Register::C, 7),
            Value::Litteral(0xffff),
        ),
        Instruction::BasicOp(BasicOp::SUB, Value::Push, Value::Push),
        Instruction::BasicOp(BasicOp::XOR, Value::Peek, Value::Pick(3)),
        Instruction::BasicOp(BasicOp::SHL, Value::SP, Value::PC),
        Instruction::BasicOp(BasicOp::MLI, Value::EX, Value::AtAddr(0x1234)),
        Instruction::BasicOp(BasicOp::STD, Value::Litteral(31), Value::Litteral(30)),
        Instruction::SpecialOp(SpecialOp::JSR, Value::Litteral(0x300)),
        Instruction::SpecialOp(SpecialOp::HWI, Value::Reg(Register::J)),
    ];
    for ins in cases {
        let mut bin = Vec::new();
        let n = ins.encode(&mut bin);
        assert_eq!(n as usize, bin.len());
        let w1 = if bin.len() > 1 { bin[1] } else { 0xbeaf };
        let w2 = if bin.len() > 2 { bin[2] } else { 0xbeaf };
        let (back, width) = decode(bin[0], w1, w2).unwrap();
        assert_eq!(back, ins);
        assert_eq!(width, n);
    }
}

#[test]
fn decode_rejects_unassigned_opcodes() {
    // Opcode 0x19 is unassigned in the basic family.
    assert!(decode(0x0019, 0, 0).is_none());
    // Special opcode 0x1f is unassigned.
    assert!(decode(0x1f << 5, 0, 0).is_none());
}

#[test]
fn literal_in_b_takes_a_word() {
    // SET 5, 5: the b literal cannot inline, the a literal can.
    let ins = Instruction::BasicOp(BasicOp::SET, Value::Litteral(5), Value::Litteral(5));
    let mut bin = Vec::new();
    let n = ins.encode(&mut bin);
    assert_eq!(n, 2);
    assert_eq!(bin, vec![(0x26 << 10) | (0x1f << 5) | 1, 5]);
}

#[test]
fn num_conversions() {
    assert_eq!(u16::from(Num::U(7)), 7);
    assert_eq!(u16::from(Num::I(-1)), 0xffff);
    assert_eq!(DatItem::from(Num::I(-2)), DatItem::N(0xfffe));
    assert_eq!(DatItem::from("x".to_string()), DatItem::S("x".to_string()));
    assert_eq!(Expression::from(Num::U(3)), Expression::Num(Num::U(3)));
}
