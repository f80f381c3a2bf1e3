//! The parsed-item stream the linker consumes: directives, label
//! declarations, parsed instructions whose operands still hold label
//! expressions, and the expression evaluator that resolves them against a
//! symbol table. All expression arithmetic wraps modulo 2^16.

use vstd::prelude::*;
use vstd::hash_map::StringHashMap;
use vstd::utf8::encode_utf8;

use crate::assembler::linker::{Error, LinkErr};
use crate::types::{spec_wadd, spec_wmul, spec_wshl, spec_wshr, spec_wsub, Instruction, Register, Value};

verus! {

/// A numeric literal; signed ones are kept as their two's-complement word.
#[derive(Debug, Clone, Copy, PartialEq, Eq, Hash, Structural)]
pub enum Num {
    U(u16),
    I(i16),
}

/// The word a numeric literal stands for.
pub open spec fn spec_num_word(n: Num) -> u16 {
    match n {
        Num::U(u) => u,
        Num::I(i) => if i >= 0 {
            i as u16
        } else {
            (i + 0x10000) as u16
        },
    }
}

/// A label-and-arithmetic expression, resolved against the symbol table.
#[derive(Debug, PartialEq, Eq, Hash)]
pub enum Expression {
    Label(String),
    LocalLabel(String),
    Num(Num),
    Add(Box<Expression>, Box<Expression>),
    Sub(Box<Expression>, Box<Expression>),
    Mul(Box<Expression>, Box<Expression>),
    Div(Box<Expression>, Box<Expression>),
    Shr(Box<Expression>, Box<Expression>),
    Shl(Box<Expression>, Box<Expression>),
    Mod(Box<Expression>, Box<Expression>),
}

/// What an expression evaluates to against a global and a local scope:
/// a word, or the first failure found left to right.
pub open spec fn spec_eval(
    e: Expression,
    g: Map<Seq<char>, u16>,
    l: Map<Seq<char>, u16>,
) -> Result<u16, LinkErr>
    decreases e,
{
    match e {
        Expression::Label(s) => if g.contains_key(s@) {
            Ok(g[s@])
        } else {
            Err(LinkErr::UnknownLabel(s@))
        },
        Expression::LocalLabel(s) => if l.contains_key(s@) {
            Ok(l[s@])
        } else {
            Err(LinkErr::UnknownLocalLabel(s@))
        },
        Expression::Num(n) => Ok(spec_num_word(n)),
        Expression::Add(x, y) => match (spec_eval(*x, g, l), spec_eval(*y, g, l)) {
            (Ok(a), Ok(b)) => Ok(spec_wadd(a, b)),
            (Err(k), _) => Err(k),
            (_, Err(k)) => Err(k),
        },
        Expression::Sub(x, y) => match (spec_eval(*x, g, l), spec_eval(*y, g, l)) {
            (Ok(a), Ok(b)) => Ok(spec_wsub(a, b)),
            (Err(k), _) => Err(k),
            (_, Err(k)) => Err(k),
        },
        Expression::Mul(x, y) => match (spec_eval(*x, g, l), spec_eval(*y, g, l)) {
            (Ok(a), Ok(b)) => Ok(spec_wmul(a, b)),
            (Err(k), _) => Err(k),
            (_, Err(k)) => Err(k),
        },
        Expression::Div(x, y) => match (spec_eval(*x, g, l), spec_eval(*y, g, l)) {
            (Ok(a), Ok(b)) => if b == 0 {
                Err(LinkErr::DivisionByZero)
            } else {
                Ok(a / b)
            },
            (Err(k), _) => Err(k),
            (_, Err(k)) => Err(k),
        },
        Expression::Shr(x, y) => match (spec_eval(*x, g, l), spec_eval(*y, g, l)) {
            (Ok(a), Ok(b)) => Ok(spec_wshr(a, b)),
            (Err(k), _) => Err(k),
            (_, Err(k)) => Err(k),
        },
        Expression::Shl(x, y) => match (spec_eval(*x, g, l), spec_eval(*y, g, l)) {
            (Ok(a), Ok(b)) => Ok(spec_wshl(a, b)),
            (Err(k), _) => Err(k),
            (_, Err(k)) => Err(k),
        },
        Expression::Mod(x, y) => match (spec_eval(*x, g, l), spec_eval(*y, g, l)) {
            (Ok(a), Ok(b)) => if b == 0 {
                Err(LinkErr::DivisionByZero)
            } else {
                Ok(a % b)
            },
            (Err(k), _) => Err(k),
            (_, Err(k)) => Err(k),
        },
    }
}

impl Clone for Expression {
    /// A deep copy.
    fn clone(&self) -> (r: Self)
        ensures
            r == *self,
        decreases *self,
    {
        match self {
            Expression::Label(s) => Expression::Label(s.clone()),
            Expression::LocalLabel(s) => Expression::LocalLabel(s.clone()),
            Expression::Num(n) => Expression::Num(*n),
            Expression::Add(x, y) => Expression::Add(
                Box::new((**x).clone()),
                Box::new((**y).clone()),
            ),
            Expression::Sub(x, y) => Expression::Sub(
                Box::new((**x).clone()),
                Box::new((**y).clone()),
            ),
            Expression::Mul(x, y) => Expression::Mul(
                Box::new((**x).clone()),
                Box::new((**y).clone()),
            ),
            Expression::Div(x, y) => Expression::Div(
                Box::new((**x).clone()),
                Box::new((**y).clone()),
            ),
            Expression::Shr(x, y) => Expression::Shr(
                Box::new((**x).clone()),
                Box::new((**y).clone()),
            ),
            Expression::Shl(x, y) => Expression::Shl(
                Box::new((**x).clone()),
                Box::new((**y).clone()),
            ),
            Expression::Mod(x, y) => Expression::Mod(
                Box::new((**x).clone()),
                Box::new((**y).clone()),
            ),
        }
    }
}

impl Expression {
    /// Resolves the expression to a word, wrapping modulo 2^16, or reports
    /// the first unknown name or zero divisor found left to right.
    pub fn solve(
        &self,
        globals: &StringHashMap<u16>,
        locals: &StringHashMap<u16>,
    ) -> (r: Result<u16, Error>)
        ensures
            match spec_eval(*self, globals@, locals@) {
                Ok(v) => r == Ok::<u16, Error>(v),
                Err(k) => r matches Err(e) && e@ == k,
            },
        decreases *self,
    {
        match self {
            Expression::Label(s) => match globals.get(s.as_str()) {
                Some(addr) => Ok(*addr),
                None => Err(Error::UnknownLabel(s.clone())),
            },
            Expression::LocalLabel(s) => match locals.get(s.as_str()) {
                Some(addr) => Ok(*addr),
                None => Err(Error::UnknownLocalLabel(s.clone())),
            },
            Expression::Num(n) => Ok(
                match *n {
                    Num::U(u) => u,
                    Num::I(i) => if i >= 0 {
                        i as u16
                    } else {
                        ((i as i32) + 0x10000) as u16
                    },
                },
            ),
            Expression::Add(x, y) => {
                let a = x.solve(globals, locals)?;
                let b = y.solve(globals, locals)?;
                Ok(a.wrapping_add(b))
            },
            Expression::Sub(x, y) => {
                let a = x.solve(globals, locals)?;
                let b = y.solve(globals, locals)?;
                Ok(a.wrapping_sub(b))
            },
            Expression::Mul(x, y) => {
                let a = x.solve(globals, locals)?;
                let b = y.solve(globals, locals)?;
                Ok(a.wrapping_mul(b))
            },
            Expression::Div(x, y) => {
                let a = x.solve(globals, locals)?;
                let b = y.solve(globals, locals)?;
                if b == 0 {
                    Err(Error::DivisionByZero)
                } else {
                    Ok(a / b)
                }
            },
            Expression::Shr(x, y) => {
                let a = x.solve(globals, locals)?;
                let b = y.solve(globals, locals)?;
                Ok(
                    if b >= 16 {
                        0
                    } else {
                        a >> b
                    },
                )
            },
            Expression::Shl(x, y) => {
                let a = x.solve(globals, locals)?;
                let b = y.solve(globals, locals)?;
                Ok(
                    if b >= 16 {
                        0
                    } else {
                        a << b
                    },
                )
            },
            Expression::Mod(x, y) => {
                let a = x.solve(globals, locals)?;
                let b = y.solve(globals, locals)?;
                if b == 0 {
                    Err(Error::DivisionByZero)
                } else {
                    Ok(a % b)
                }
            },
        }
    }
}

/// Wrap-around: the wrapping word operators the evaluator applies at each
/// arithmetic node are congruent modulo 2^16 to exact integer arithmetic
/// on the operand values, and the shift and division forms are exact.
pub proof fn lemma_expression_wraps(a: u16, b: u16)
    ensures
        (spec_wadd(a, b) - (a + b)) % 0x10000 == 0,
        (spec_wsub(a, b) - (a - b)) % 0x10000 == 0,
        (spec_wmul(a, b) - (a * b)) % 0x10000 == 0,
        (spec_wshl(a, b) - a * vstd::arithmetic::power2::pow2(b as nat)) % 0x10000 == 0,
        b < 16 ==> spec_wshr(a, b) == a as nat / vstd::arithmetic::power2::pow2(b as nat),
{
    broadcast use vstd::arithmetic::div_mod::lemma_mod_twice;
    broadcast use vstd::arithmetic::div_mod::lemma_sub_mod_noop;

    assert((spec_wadd(a, b) - (a + b)) % 0x10000 == 0) by {
        assert(spec_wadd(a, b) as int % 0x10000 == (a + b) % 0x10000);
    }
    assert((spec_wsub(a, b) - (a - b)) % 0x10000 == 0) by {
        assert((a - b + 0x10000) % 0x10000 == (a - b) % 0x10000) by {
            vstd::arithmetic::div_mod::lemma_mod_multiples_vanish(1, a - b, 0x10000);
        }
    }
    assert((spec_wmul(a, b) - (a * b)) % 0x10000 == 0) by {
        vstd::arithmetic::div_mod::lemma_mul_mod_noop_general(a as int, b as int, 0x10000);
    }
    lemma_wshl_congruent(a, b);
    if b < 16 {
        vstd::bits::lemma_u16_shr_is_div(a, b);
    }
}

/// A left shift of a word is multiplication by the matching power of two,
/// modulo 2^16; shifts of 16 or more land on zero, which that product is
/// congruent to as well.
proof fn lemma_wshl_congruent(a: u16, b: u16)
    ensures
        (spec_wshl(a, b) - a * vstd::arithmetic::power2::pow2(b as nat)) % 0x10000 == 0,
{
    broadcast use vstd::arithmetic::div_mod::lemma_sub_mod_noop;
    broadcast use vstd::arithmetic::div_mod::lemma_mod_twice;

    let p = vstd::arithmetic::power2::pow2(b as nat);
    if b >= 16 {
        vstd::arithmetic::power2::lemma_pow2_adds(16, (b - 16) as nat);
        vstd::arithmetic::power2::lemma2_to64();
        assert(a * (0x10000 * vstd::arithmetic::power2::pow2((b - 16) as nat)) == (a
            * vstd::arithmetic::power2::pow2((b - 16) as nat)) * 0x10000) by (nonlinear_arith);
        vstd::arithmetic::div_mod::lemma_mod_multiples_basic(
            a * vstd::arithmetic::power2::pow2((b - 16) as nat),
            0x10000,
        );
    } else {
        let wide = (a as u32) << (b as u32);
        vstd::arithmetic::power2::lemma_pow2_pos(b as nat);
        assert(p <= 0x8000) by {
            vstd::arithmetic::power2::lemma_pow2_strictly_increases(b as nat, 16);
            vstd::arithmetic::power2::lemma2_to64();
        }
        assert(a as u32 * p <= u32::MAX) by (nonlinear_arith)
            requires
                a <= 0xffff && 0 < p <= 0x8000,
        ;
        vstd::bits::lemma_u32_shl_is_mul(a as u32, b as u32);
        assert((a << b) == wide % 0x10000) by (bit_vector)
            requires
                wide == (a as u32) << (b as u32) && b < 16,
        ;
        assert(wide % 0x10000 == (a * p) % 0x10000);
    }
}

/// One piece of a `dat` directive: a string emitted one byte per word and
/// zero-terminated, or a bare number emitted as one word.
#[derive(Debug, Clone, PartialEq, Eq, Hash)]
pub enum DatItem {
    S(String),
    N(u16),
}

/// The words one `dat` item emits.
pub open spec fn dat_item_words(d: DatItem) -> Seq<u16> {
    match d {
        DatItem::S(s) => encode_utf8(s@).map(|i: int, b: u8| b as u16) + seq![0u16],
        DatItem::N(n) => seq![n],
    }
}

/// The words a whole `dat` item list emits, in order.
pub open spec fn dat_words(items: Seq<DatItem>) -> Seq<u16>
    decreases items.len(),
{
    if items.len() == 0 {
        Seq::empty()
    } else {
        dat_words(items.drop_last()) + dat_item_words(items.last())
    }
}

/// A layout directive. `global`, `text` and `bss` are section markers that
/// emit nothing.
#[derive(Debug, Clone, PartialEq, Eq, Hash)]
pub enum Directive {
    Dat(Vec<DatItem>),
    Org(u16),
    Global,
    Text,
    BSS,
}

/// The words a directive emits: its data for `dat`, `n` zero words for
/// `org n`, nothing for the section markers.
pub open spec fn directive_words(d: Directive) -> Seq<u16> {
    match d {
        Directive::Dat(items) => dat_words(items@),
        Directive::Org(n) => Seq::new(n as nat, |i: int| 0u16),
        Directive::Global => Seq::empty(),
        Directive::Text => Seq::empty(),
        Directive::BSS => Seq::empty(),
    }
}

impl Directive {
    /// Appends the directive's words to `bin` and returns how many were
    /// appended, truncated to a word as the emission cursor is.
    pub fn append_to(&self, bin: &mut Vec<u16>) -> (n: u16)
        ensures
            final(bin)@ == old(bin)@ + directive_words(*self),
            n as int == directive_words(*self).len() as int % 0x10000,
    {
        let start = bin.len();
        match self {
            Directive::Dat(items) => {
                let ghost base = bin@;
                let mut i: usize = 0;
                while i < items.len()
                    invariant
                        i <= items@.len(),
                        base == old(bin)@,
                        start == base.len(),
                        bin@ == base + dat_words(items@.take(i as int)),
                    decreases items@.len() - i,
                {
                    match &items[i] {
                        DatItem::S(s) => {
                            let bytes = s.as_str().as_bytes();
                            let ghost inner = bin@;
                            let mut j: usize = 0;
                            while j < bytes.len()
                                invariant
                                    j <= bytes@.len(),
                                    i < items@.len(),
                                    items@[i as int] == DatItem::S(*s),
                                    bytes@ == encode_utf8(s@),
                                    inner == base + dat_words(items@.take(i as int)),
                                    bin@ == inner + bytes@.take(j as int).map(
                                        |k: int, b: u8| b as u16,
                                    ),
                                decreases bytes@.len() - j,
                            {
                                bin.push(bytes[j] as u16);
                                proof {
                                    assert(bin@ =~= inner + bytes@.take(j + 1).map(
                                        |k: int, b: u8| b as u16,
                                    ));
                                }
                                j = j + 1;
                            }
                            bin.push(0);
                            proof {
                                assert(bytes@.take(bytes@.len() as int) =~= bytes@);
                                assert(bin@ =~= inner + dat_item_words(items@[i as int]));
                            }
                        },
                        DatItem::N(n) => {
                            bin.push(*n);
                        },
                    }
                    proof {
                        assert(items@.take(i + 1).drop_last() =~= items@.take(i as int));
                        assert(items@.take(i + 1).last() == items@[i as int]);
                        assert(bin@ =~= base + dat_words(items@.take(i + 1)));
                    }
                    i = i + 1;
                }
                proof {
                    assert(items@.take(items@.len() as int) =~= items@);
                }
                let appended = bin.len() - start;
                proof {
                    assert(appended == directive_words(*self).len());
                }
                (appended % 0x10000) as u16
            },
            Directive::Org(n) => {
                let mut k: u16 = 0;
                while k < *n
                    invariant
                        k <= *n,
                        bin@ == old(bin)@ + Seq::new(k as nat, |i: int| 0u16),
                    decreases *n - k,
                {
                    bin.push(0);
                    proof {
                        assert(bin@ =~= old(bin)@ + Seq::new((k + 1) as nat, |i: int| 0u16));
                    }
                    k = k + 1;
                }
                proof {
                    assert(bin@ =~= old(bin)@ + directive_words(*self));
                }
                *n
            },
            Directive::Global | Directive::Text | Directive::BSS => {
                proof {
                    assert(bin@ =~= old(bin)@ + directive_words(*self));
                }
                0
            },
        }
    }
}

/// A parsed instruction: opcode plus operands whose expressions are not
/// yet resolved. The operand order is destination `b`, then source `a`.
#[derive(Debug, Clone, PartialEq, Eq, Hash)]
pub enum ParsedInstruction {
    BasicOp(crate::types::BasicOp, ParsedValue, ParsedValue),
    SpecialOp(crate::types::SpecialOp, ParsedValue),
}

/// A parsed operand, holding expressions where the resolved form holds
/// concrete words.
#[derive(Debug, Clone, PartialEq, Eq, Hash)]
pub enum ParsedValue {
    Reg(Register),
    AtReg(Register),
    AtRegPlus(Register, Expression),
    Push,
    Peek,
    Pick(Expression),
    SP,
    PC,
    EX,
    AtAddr(Expression),
    Litteral(Expression),
}

/// What a parsed operand resolves to, or its first evaluation failure.
pub open spec fn spec_solve_value(
    pv: ParsedValue,
    g: Map<Seq<char>, u16>,
    l: Map<Seq<char>, u16>,
) -> Result<Value, LinkErr> {
    match pv {
        ParsedValue::Reg(r) => Ok(Value::Reg(r)),
        ParsedValue::AtReg(r) => Ok(Value::AtReg(r)),
        ParsedValue::AtRegPlus(r, e) => match spec_eval(e, g, l) {
            Ok(v) => Ok(Value::AtRegPlus(r, v)),
            Err(k) => Err(k),
        },
        ParsedValue::Push => Ok(Value::Push),
        ParsedValue::Peek => Ok(Value::Peek),
        ParsedValue::Pick(e) => match spec_eval(e, g, l) {
            Ok(v) => Ok(Value::Pick(v)),
            Err(k) => Err(k),
        },
        ParsedValue::SP => Ok(Value::SP),
        ParsedValue::PC => Ok(Value::PC),
        ParsedValue::EX => Ok(Value::EX),
        ParsedValue::AtAddr(e) => match spec_eval(e, g, l) {
            Ok(v) => Ok(Value::AtAddr(v)),
            Err(k) => Err(k),
        },
        ParsedValue::Litteral(e) => match spec_eval(e, g, l) {
            Ok(v) => Ok(Value::Litteral(v)),
            Err(k) => Err(k),
        },
    }
}

impl ParsedValue {
    /// Resolves the operand's expression, if it has one, against the
    /// symbol table.
    pub fn solve(
        &self,
        globals: &StringHashMap<u16>,
        locals: &StringHashMap<u16>,
    ) -> (r: Result<Value, Error>)
        ensures
            match spec_solve_value(*self, globals@, locals@) {
                Ok(v) => r == Ok::<Value, Error>(v),
                Err(k) => r matches Err(e) && e@ == k,
            },
    {
        match self {
            ParsedValue::Reg(r) => Ok(Value::Reg(*r)),
            ParsedValue::AtReg(r) => Ok(Value::AtReg(*r)),
            ParsedValue::AtRegPlus(r, e) => Ok(Value::AtRegPlus(*r, e.solve(globals, locals)?)),
            ParsedValue::Push => Ok(Value::Push),
            ParsedValue::Peek => Ok(Value::Peek),
            ParsedValue::Pick(e) => Ok(Value::Pick(e.solve(globals, locals)?)),
            ParsedValue::SP => Ok(Value::SP),
            ParsedValue::PC => Ok(Value::PC),
            ParsedValue::EX => Ok(Value::EX),
            ParsedValue::AtAddr(e) => Ok(Value::AtAddr(e.solve(globals, locals)?)),
            ParsedValue::Litteral(e) => Ok(Value::Litteral(e.solve(globals, locals)?)),
        }
    }
}

/// What a parsed instruction resolves to: operand `b` is resolved first,
/// so its failure wins.
pub open spec fn spec_solve_instruction(
    pi: ParsedInstruction,
    g: Map<Seq<char>, u16>,
    l: Map<Seq<char>, u16>,
) -> Result<Instruction, LinkErr> {
    match pi {
        ParsedInstruction::BasicOp(op, b, a) => match (
            spec_solve_value(b, g, l),
            spec_solve_value(a, g, l),
        ) {
            (Ok(vb), Ok(va)) => Ok(Instruction::BasicOp(op, vb, va)),
            (Err(k), _) => Err(k),
            (_, Err(k)) => Err(k),
        },
        ParsedInstruction::SpecialOp(op, a) => match spec_solve_value(a, g, l) {
            Ok(va) => Ok(Instruction::SpecialOp(op, va)),
            Err(k) => Err(k),
        },
    }
}

impl ParsedInstruction {
    /// Resolves both operands against the symbol table.
    pub fn solve(
        &self,
        globals: &StringHashMap<u16>,
        locals: &StringHashMap<u16>,
    ) -> (r: Result<Instruction, Error>)
        ensures
            match spec_solve_instruction(*self, globals@, locals@) {
                Ok(v) => r == Ok::<Instruction, Error>(v),
                Err(k) => r matches Err(e) && e@ == k,
            },
    {
        match self {
            ParsedInstruction::BasicOp(op, b, a) => Ok(
                Instruction::BasicOp(*op, b.solve(globals, locals)?, a.solve(globals, locals)?),
            ),
            ParsedInstruction::SpecialOp(op, a) => Ok(
                Instruction::SpecialOp(*op, a.solve(globals, locals)?),
            ),
        }
    }
}

/// One element of the linker's input stream. Comments and section markers
/// are layout no-ops.
#[derive(Debug, Clone, PartialEq, Eq, Hash)]
pub enum ParsedItem {
    Directive(Directive),
    LabelDecl(String),
    LocalLabelDecl(String),
    ParsedInstruction(ParsedInstruction),
    Comment(String),
}

impl From<Num> for u16 {
    /// The word a numeric literal stands for.
    fn from(n: Num) -> (r: u16)
        ensures
            r == spec_num_word(n),
    {
        match n {
            Num::U(u) => u,
            Num::I(i) => if i >= 0 {
                i as u16
            } else {
                ((i as i32) + 0x10000) as u16
            },
        }
    }
}

impl vstd::std_specs::convert::FromSpecImpl<Num> for u16 {
    open spec fn obeys_from_spec() -> bool {
        true
    }

    open spec fn from_spec(n: Num) -> u16 {
        spec_num_word(n)
    }
}

impl From<Num> for Expression {
    /// A bare numeric literal as an expression.
    fn from(n: Num) -> (r: Expression)
        ensures
            r == Expression::Num(n),
    {
        Expression::Num(n)
    }
}

impl vstd::std_specs::convert::FromSpecImpl<Num> for Expression {
    open spec fn obeys_from_spec() -> bool {
        true
    }

    open spec fn from_spec(n: Num) -> Expression {
        Expression::Num(n)
    }
}

impl From<String> for DatItem {
    /// A string datum.
    fn from(s: String) -> (r: DatItem)
        ensures
            r == DatItem::S(s),
    {
        DatItem::S(s)
    }
}

impl vstd::std_specs::convert::FromSpecImpl<String> for DatItem {
    open spec fn obeys_from_spec() -> bool {
        true
    }

    open spec fn from_spec(s: String) -> DatItem {
        DatItem::S(s)
    }
}

impl From<Num> for DatItem {
    /// A numeric datum, as the word it stands for.
    fn from(n: Num) -> (r: DatItem)
        ensures
            r == DatItem::N(spec_num_word(n)),
    {
        DatItem::N(u16::from(n))
    }
}

impl vstd::std_specs::convert::FromSpecImpl<Num> for DatItem {
    open spec fn obeys_from_spec() -> bool {
        true
    }

    open spec fn from_spec(n: Num) -> DatItem {
        DatItem::N(spec_num_word(n))
    }
}

} // verus!
