//! The bit-exact wire format: one instruction word shaped `aaaaaabbbbbooooo`,
//! followed by operand `a`'s extra word (if any), then operand `b`'s.
//! Literals in the range -1..=30 are inlined into the 6-bit `a` field as
//! codes 0x20..0x3f; that short form exists only in operand position `a`.

use vstd::prelude::*;

use crate::types::{BasicOp, Instruction, Register, SpecialOp, Value};

verus! {

/// Literals that fit the inline short form: -1 (as 0xffff) through 30.
pub open spec fn inline_literal(n: u16) -> bool {
    n == 0xffff || n <= 30
}

/// The 6-bit operand code of a value in position `a` (`in_a` true) or `b`.
pub open spec fn spec_value_code(v: Value, in_a: bool) -> u16 {
    match v {
        Value::Reg(r) => r.spec_code(),
        Value::AtReg(r) => (0x08 + r.spec_code()) as u16,
        Value::AtRegPlus(r, _) => (0x10 + r.spec_code()) as u16,
        Value::Push => 0x18,
        Value::Peek => 0x19,
        Value::Pick(_) => 0x1a,
        Value::SP => 0x1b,
        Value::PC => 0x1c,
        Value::EX => 0x1d,
        Value::AtAddr(_) => 0x1e,
        Value::Litteral(n) => if in_a && inline_literal(n) {
            if n == 0xffff {
                0x20
            } else {
                (0x21 + n) as u16
            }
        } else {
            0x1f
        },
    }
}

/// The extra word a value contributes beyond the instruction word, if any.
pub open spec fn spec_value_extra(v: Value, in_a: bool) -> Option<u16> {
    match v {
        Value::AtRegPlus(_, off) => Some(off),
        Value::Pick(n) => Some(n),
        Value::AtAddr(a) => Some(a),
        Value::Litteral(n) => if in_a && inline_literal(n) {
            None
        } else {
            Some(n)
        },
        _ => None,
    }
}

pub open spec fn extra_words(v: Value, in_a: bool) -> Seq<u16> {
    match spec_value_extra(v, in_a) {
        Some(w) => seq![w],
        None => Seq::empty(),
    }
}

/// Packs the three fields of an instruction word.
pub open spec fn pack_word(a: u16, b: u16, o: u16) -> u16 {
    (a << 10) | (b << 5) | o
}

/// The exact word sequence an instruction encodes to: 1 to 3 words.
pub open spec fn spec_instruction_words(i: Instruction) -> Seq<u16> {
    match i {
        Instruction::BasicOp(op, b, a) => seq![
            pack_word(spec_value_code(a, true), spec_value_code(b, false), op.spec_code()),
        ] + extra_words(a, true) + extra_words(b, false),
        Instruction::SpecialOp(op, a) => seq![
            pack_word(spec_value_code(a, true), op.spec_code(), 0),
        ] + extra_words(a, true),
    }
}

/// Whether a 6-bit operand code consumes an extra word when decoded.
pub open spec fn code_has_extra(c: u16) -> bool {
    (0x10 <= c && c < 0x18) || c == 0x1a || c == 0x1e || c == 0x1f
}

/// The value a 6-bit operand code denotes, given the extra word it would
/// consume (ignored by the kinds that take none).
pub open spec fn spec_value_from_code(c: u16, extra: u16) -> Value {
    if c < 0x08 {
        Value::Reg(Register::spec_from_code(c))
    } else if c < 0x10 {
        Value::AtReg(Register::spec_from_code((c - 0x08) as u16))
    } else if c < 0x18 {
        Value::AtRegPlus(Register::spec_from_code((c - 0x10) as u16), extra)
    } else if c == 0x18 {
        Value::Push
    } else if c == 0x19 {
        Value::Peek
    } else if c == 0x1a {
        Value::Pick(extra)
    } else if c == 0x1b {
        Value::SP
    } else if c == 0x1c {
        Value::PC
    } else if c == 0x1d {
        Value::EX
    } else if c == 0x1e {
        Value::AtAddr(extra)
    } else if c == 0x1f {
        Value::Litteral(extra)
    } else if c == 0x20 {
        Value::Litteral(0xffff)
    } else {
        Value::Litteral((c - 0x21) as u16)
    }
}

/// Decodes one instruction from a three-word window; the trailing words are
/// read only as far as the operand codes call for them. Returns the
/// instruction and the count of words consumed, or `None` on an unassigned
/// opcode.
pub open spec fn spec_decode(w0: u16, w1: u16, w2: u16) -> Option<(Instruction, u16)> {
    let o = w0 & 0x1f;
    let bf = (w0 >> 5) & 0x1f;
    let af = w0 >> 10;
    if o == 0 {
        match SpecialOp::spec_from_code(bf) {
            Some(op) => {
                let a = spec_value_from_code(af, w1);
                let n: u16 = if code_has_extra(af) {
                    2
                } else {
                    1
                };
                Some((Instruction::SpecialOp(op, a), n))
            },
            None => None,
        }
    } else {
        match BasicOp::spec_from_code(o) {
            Some(op) => {
                let a = spec_value_from_code(af, w1);
                let bextra = if code_has_extra(af) {
                    w2
                } else {
                    w1
                };
                let b = spec_value_from_code(bf, bextra);
                let n: u16 = (1 + (if code_has_extra(af) {
                    1u16
                } else {
                    0u16
                }) + (if code_has_extra(bf) {
                    1u16
                } else {
                    0u16
                })) as u16;
                Some((Instruction::BasicOp(op, b, a), n))
            },
            None => None,
        }
    }
}

/// Field extraction inverts field packing on in-range fields.
proof fn lemma_pack_unpack(a: u16, b: u16, o: u16)
    by (bit_vector)
    requires
        a < 0x40,
        b < 0x20,
        o < 0x20,
    ensures
        ((a << 10) | (b << 5) | o) & 0x1f == o,
        (((a << 10) | (b << 5) | o) >> 5) & 0x1f == b,
        ((a << 10) | (b << 5) | o) >> 10 == a,
{
}

/// An operand code is in range, fits the 5-bit `b` field when the short
/// literal form is off the table, signals its extra word correctly, and
/// decodes back to the value it came from.
proof fn lemma_value_round_trip(v: Value, in_a: bool)
    ensures
        spec_value_code(v, in_a) < 0x40,
        !in_a ==> spec_value_code(v, in_a) < 0x20,
        code_has_extra(spec_value_code(v, in_a)) <==> spec_value_extra(v, in_a) is Some,
        spec_value_extra(v, in_a) matches Some(e) ==> spec_value_from_code(
            spec_value_code(v, in_a),
            e,
        ) == v,
        spec_value_extra(v, in_a) is None ==> forall|x: u16|
            #[trigger] spec_value_from_code(spec_value_code(v, in_a), x) == v,
{
    match v {
        Value::Reg(r) => {
            assert(r.spec_code() < 8);
        },
        Value::AtReg(r) => {
            assert(r.spec_code() < 8);
        },
        Value::AtRegPlus(r, _) => {
            assert(r.spec_code() < 8);
        },
        _ => {},
    }
}

/// Every basic opcode's 5-bit code is assigned, nonzero, and maps back.
proof fn lemma_basic_code(op: BasicOp)
    ensures
        1 <= op.spec_code() < 0x20,
        BasicOp::spec_from_code(op.spec_code()) == Some(op),
{
}

/// Every special opcode's 5-bit code is assigned and maps back.
proof fn lemma_special_code(op: SpecialOp)
    ensures
        1 <= op.spec_code() < 0x20,
        SpecialOp::spec_from_code(op.spec_code()) == Some(op),
{
}

/// Round trip: decoding what an instruction encodes to yields the same
/// instruction and consumes exactly the encoded width, whatever words
/// (`x1`, `x2`) follow the encoding in the stream. Re-encoding the decoded
/// instruction therefore reproduces any word stream an encoder emitted.
pub proof fn lemma_decode_encode(i: Instruction, x1: u16, x2: u16)
    ensures
        ({
            let w = spec_instruction_words(i);
            let w1 = if w.len() > 1 {
                w[1]
            } else {
                x1
            };
            let w2 = if w.len() > 2 {
                w[2]
            } else {
                x2
            };
            spec_decode(w[0], w1, w2) == Some((i, w.len() as u16))
        }),
{
    match i {
        Instruction::BasicOp(op, b, a) => {
            lemma_basic_code(op);
            lemma_value_round_trip(a, true);
            lemma_value_round_trip(b, false);
            lemma_pack_unpack(spec_value_code(a, true), spec_value_code(b, false), op.spec_code());
        },
        Instruction::SpecialOp(op, a) => {
            lemma_special_code(op);
            lemma_value_round_trip(a, true);
            lemma_pack_unpack(spec_value_code(a, true), op.spec_code(), 0);
        },
    }
}

/// The stream direction of the round trip: a word stream that begins with
/// the encoding of some instruction decodes to that instruction, consumes
/// exactly the encoded words, and re-encoding what was decoded reproduces
/// the consumed prefix of the stream.
pub proof fn lemma_stream_round_trip(stream: Seq<u16>, i: Instruction)
    requires
        stream.len() >= 3,
        spec_instruction_words(i).is_prefix_of(stream),
    ensures
        spec_decode(stream[0], stream[1], stream[2]) matches Some((d, n)) && d == i && n
            == spec_instruction_words(i).len() && stream.take(n as int) == spec_instruction_words(
            d,
        ),
{
    lemma_decode_encode(i, stream[1], stream[2]);
    let w = spec_instruction_words(i);
    assert(stream[0] == w[0]);
    if w.len() > 1 {
        assert(stream[1] == w[1]);
    }
    if w.len() > 2 {
        assert(stream[2] == w[2]);
    }
    assert(stream.take(w.len() as int) =~= w);
}

impl Value {
    /// The operand's 6-bit code for its position.
    pub fn code(&self, in_a: bool) -> (c: u16)
        ensures
            c == spec_value_code(*self, in_a),
            c < 0x40,
            !in_a ==> c < 0x20,
    {
        proof {
            lemma_value_round_trip(*self, in_a);
        }
        match *self {
            Value::Reg(r) => r.code(),
            Value::AtReg(r) => 0x08 + r.code(),
            Value::AtRegPlus(r, _) => 0x10 + r.code(),
            Value::Push => 0x18,
            Value::Peek => 0x19,
            Value::Pick(_) => 0x1a,
            Value::SP => 0x1b,
            Value::PC => 0x1c,
            Value::EX => 0x1d,
            Value::AtAddr(_) => 0x1e,
            Value::Litteral(n) => {
                if in_a && (n == 0xffff || n <= 30) {
                    if n == 0xffff {
                        0x20
                    } else {
                        0x21 + n
                    }
                } else {
                    0x1f
                }
            },
        }
    }

    /// The operand's extra word for its position, if it takes one.
    pub fn extra(&self, in_a: bool) -> (e: Option<u16>)
        ensures
            e == spec_value_extra(*self, in_a),
    {
        match *self {
            Value::AtRegPlus(_, off) => Some(off),
            Value::Pick(n) => Some(n),
            Value::AtAddr(a) => Some(a),
            Value::Litteral(n) => {
                if in_a && (n == 0xffff || n <= 30) {
                    None
                } else {
                    Some(n)
                }
            },
            _ => None,
        }
    }
}

/// Packs the three fields of an instruction word.
fn pack(a: u16, b: u16, o: u16) -> (w: u16)
    requires
        a < 0x40,
        b < 0x20,
        o < 0x20,
    ensures
        w == pack_word(a, b, o),
{
    (a << 10u16) | (b << 5u16) | o
}

impl Instruction {
    /// Appends the instruction's encoding to `bin` and returns the number
    /// of words written: 1 to 3.
    pub fn encode(&self, bin: &mut Vec<u16>) -> (n: u16)
        ensures
            final(bin)@ == old(bin)@ + spec_instruction_words(*self),
            n == spec_instruction_words(*self).len(),
            1 <= n <= 3,
    {
        let mut n: u16 = 1;
        match *self {
            Instruction::BasicOp(op, b, a) => {
                bin.push(pack(a.code(true), b.code(false), op.code()));
                if let Some(w) = a.extra(true) {
                    bin.push(w);
                    n = n + 1;
                }
                if let Some(w) = b.extra(false) {
                    bin.push(w);
                    n = n + 1;
                }
                proof {
                    assert(final(bin)@ =~= old(bin)@ + spec_instruction_words(*self));
                }
            },
            Instruction::SpecialOp(op, a) => {
                proof {
                    lemma_special_code(op);
                }
                bin.push(pack(a.code(true), op.code(), 0));
                if let Some(w) = a.extra(true) {
                    bin.push(w);
                    n = n + 1;
                }
                proof {
                    assert(final(bin)@ =~= old(bin)@ + spec_instruction_words(*self));
                }
            },
        }
        n
    }
}

/// Decodes one instruction from a three-word window. `None` on an
/// unassigned opcode; otherwise the instruction and the count of words it
/// occupies, which is where the next instruction starts.
pub fn decode(w0: u16, w1: u16, w2: u16) -> (r: Option<(Instruction, u16)>)
    ensures
        r == spec_decode(w0, w1, w2),
{
    let o = w0 & 0x1f;
    let bf = (w0 >> 5u16) & 0x1f;
    let af = w0 >> 10u16;
    assert(o < 0x20 && bf < 0x20 && af < 0x40) by (bit_vector)
        requires
            o == w0 & 0x1f && bf == (w0 >> 5u16) & 0x1f && af == w0 >> 10u16,
    ;
    if o == 0 {
        match SpecialOp::from_code(bf) {
            Some(op) => {
                let (a, used) = decode_value(af, w1);
                Some((Instruction::SpecialOp(op, a), 1 + used))
            },
            None => None,
        }
    } else {
        match BasicOp::from_code(o) {
            Some(op) => {
                let (a, aused) = decode_value(af, w1);
                let bextra = if aused == 1 {
                    w2
                } else {
                    w1
                };
                let (b, bused) = decode_value(bf, bextra);
                Some((Instruction::BasicOp(op, b, a), 1 + aused + bused))
            },
            None => None,
        }
    }
}

/// Decodes one operand code, returning the value and whether the extra
/// word was consumed.
fn decode_value(c: u16, extra: u16) -> (r: (Value, u16))
    requires
        c < 0x40,
    ensures
        r.0 == spec_value_from_code(c, extra),
        r.1 == if code_has_extra(c) {
            1u16
        } else {
            0u16
        },
{
    if c < 0x08 {
        (Value::Reg(Register::from_code(c)), 0)
    } else if c < 0x10 {
        (Value::AtReg(Register::from_code(c - 0x08)), 0)
    } else if c < 0x18 {
        (Value::AtRegPlus(Register::from_code(c - 0x10), extra), 1)
    } else if c == 0x18 {
        (Value::Push, 0)
    } else if c == 0x19 {
        (Value::Peek, 0)
    } else if c == 0x1a {
        (Value::Pick(extra), 1)
    } else if c == 0x1b {
        (Value::SP, 0)
    } else if c == 0x1c {
        (Value::PC, 0)
    } else if c == 0x1d {
        (Value::EX, 0)
    } else if c == 0x1e {
        (Value::AtAddr(extra), 1)
    } else if c == 0x1f {
        (Value::Litteral(extra), 1)
    } else if c == 0x20 {
        (Value::Litteral(0xffff), 0)
    } else {
        (Value::Litteral(c - 0x21), 0)
    }
}

} // verus!
