//! The instruction model: registers, the two opcode families, operands and
//! instructions, together with their numeric codes on the wire and their
//! static attributes (arity family, conditionality, base cycle cost).

use vstd::prelude::*;

verus! {

/// Word addition, wrapping modulo 2^16.
pub open spec fn spec_wadd(a: u16, b: u16) -> u16 {
    ((a + b) % 0x10000) as u16
}

/// Word subtraction, wrapping modulo 2^16.
pub open spec fn spec_wsub(a: u16, b: u16) -> u16 {
    ((a - b + 0x10000) % 0x10000) as u16
}

/// Word multiplication, wrapping modulo 2^16.
pub open spec fn spec_wmul(a: u16, b: u16) -> u16 {
    ((a * b) % 0x10000) as u16
}

/// Word left shift; shifts of 16 or more produce zero.
pub open spec fn spec_wshl(a: u16, b: u16) -> u16 {
    if b >= 16 {
        0
    } else {
        a << b
    }
}

/// Word right shift; shifts of 16 or more produce zero.
pub open spec fn spec_wshr(a: u16, b: u16) -> u16 {
    if b >= 16 {
        0
    } else {
        a >> b
    }
}

/// The value of a word read as a two's-complement signed quantity.
pub open spec fn spec_signed(x: u16) -> int {
    if x >= 0x8000 {
        x - 0x10000
    } else {
        x as int
    }
}

/// The eight general-purpose registers, in code order.
#[derive(Debug, Clone, Copy, PartialEq, Eq, Hash, Structural)]
pub enum Register {
    A,
    B,
    C,
    X,
    Y,
    Z,
    I,
    J,
}

impl Register {
    /// The 3-bit register number used inside operand codes.
    pub open spec fn spec_code(self) -> u16 {
        match self {
            Register::A => 0,
            Register::B => 1,
            Register::C => 2,
            Register::X => 3,
            Register::Y => 4,
            Register::Z => 5,
            Register::I => 6,
            Register::J => 7,
        }
    }

    #[verifier::when_used_as_spec(spec_code)]
    pub fn code(self) -> (c: u16)
        ensures
            c == self.spec_code(),
    {
        match self {
            Register::A => 0,
            Register::B => 1,
            Register::C => 2,
            Register::X => 3,
            Register::Y => 4,
            Register::Z => 5,
            Register::I => 6,
            Register::J => 7,
        }
    }

    /// The register holding a given 3-bit number.
    pub open spec fn spec_from_code(c: u16) -> Register {
        if c == 0 {
            Register::A
        } else if c == 1 {
            Register::B
        } else if c == 2 {
            Register::C
        } else if c == 3 {
            Register::X
        } else if c == 4 {
            Register::Y
        } else if c == 5 {
            Register::Z
        } else if c == 6 {
            Register::I
        } else {
            Register::J
        }
    }

    pub fn from_code(c: u16) -> (r: Register)
        requires
            c < 8,
        ensures
            r == Register::spec_from_code(c),
            r.spec_code() == c,
    {
        if c == 0 {
            Register::A
        } else if c == 1 {
            Register::B
        } else if c == 2 {
            Register::C
        } else if c == 3 {
            Register::X
        } else if c == 4 {
            Register::Y
        } else if c == 5 {
            Register::Z
        } else if c == 6 {
            Register::I
        } else {
            Register::J
        }
    }
}

/// The two-operand opcodes.
#[derive(Debug, Clone, Copy, PartialEq, Eq, Hash, Structural)]
pub enum BasicOp {
    SET,
    ADD,
    SUB,
    MUL,
    MLI,
    DIV,
    DVI,
    MOD,
    MDI,
    AND,
    BOR,
    XOR,
    SHR,
    ASR,
    SHL,
    IFB,
    IFC,
    IFE,
    IFN,
    IFG,
    IFA,
    IFL,
    IFU,
    ADX,
    SBX,
    STI,
    STD,
}

impl BasicOp {
    /// The 5-bit opcode field of a basic instruction word.
    pub open spec fn spec_code(self) -> u16 {
        match self {
            BasicOp::SET => 0x01,
            BasicOp::ADD => 0x02,
            BasicOp::SUB => 0x03,
            BasicOp::MUL => 0x04,
            BasicOp::MLI => 0x05,
            BasicOp::DIV => 0x06,
            BasicOp::DVI => 0x07,
            BasicOp::MOD => 0x08,
            BasicOp::MDI => 0x09,
            BasicOp::AND => 0x0a,
            BasicOp::BOR => 0x0b,
            BasicOp::XOR => 0x0c,
            BasicOp::SHR => 0x0d,
            BasicOp::ASR => 0x0e,
            BasicOp::SHL => 0x0f,
            BasicOp::IFB => 0x10,
            BasicOp::IFC => 0x11,
            BasicOp::IFE => 0x12,
            BasicOp::IFN => 0x13,
            BasicOp::IFG => 0x14,
            BasicOp::IFA => 0x15,
            BasicOp::IFL => 0x16,
            BasicOp::IFU => 0x17,
            BasicOp::ADX => 0x1a,
            BasicOp::SBX => 0x1b,
            BasicOp::STI => 0x1e,
            BasicOp::STD => 0x1f,
        }
    }

    #[verifier::when_used_as_spec(spec_code)]
    pub fn code(self) -> (c: u16)
        ensures
            c == self.spec_code(),
    {
        match self {
            BasicOp::SET => 0x01,
            BasicOp::ADD => 0x02,
            BasicOp::SUB => 0x03,
            BasicOp::MUL => 0x04,
            BasicOp::MLI => 0x05,
            BasicOp::DIV => 0x06,
            BasicOp::DVI => 0x07,
            BasicOp::MOD => 0x08,
            BasicOp::MDI => 0x09,
            BasicOp::AND => 0x0a,
            BasicOp::BOR => 0x0b,
            BasicOp::XOR => 0x0c,
            BasicOp::SHR => 0x0d,
            BasicOp::ASR => 0x0e,
            BasicOp::SHL => 0x0f,
            BasicOp::IFB => 0x10,
            BasicOp::IFC => 0x11,
            BasicOp::IFE => 0x12,
            BasicOp::IFN => 0x13,
            BasicOp::IFG => 0x14,
            BasicOp::IFA => 0x15,
            BasicOp::IFL => 0x16,
            BasicOp::IFU => 0x17,
            BasicOp::ADX => 0x1a,
            BasicOp::SBX => 0x1b,
            BasicOp::STI => 0x1e,
            BasicOp::STD => 0x1f,
        }
    }

    /// The basic opcode carried by a 5-bit code, if any: the codes 0x00
    /// (the special-op marker), 0x18, 0x19, 0x1c and 0x1d are unassigned.
    pub open spec fn spec_from_code(c: u16) -> Option<BasicOp> {
        if c == 0x01 {
            Some(BasicOp::SET)
        } else if c == 0x02 {
            Some(BasicOp::ADD)
        } else if c == 0x03 {
            Some(BasicOp::SUB)
        } else if c == 0x04 {
            Some(BasicOp::MUL)
        } else if c == 0x05 {
            Some(BasicOp::MLI)
        } else if c == 0x06 {
            Some(BasicOp::DIV)
        } else if c == 0x07 {
            Some(BasicOp::DVI)
        } else if c == 0x08 {
            Some(BasicOp::MOD)
        } else if c == 0x09 {
            Some(BasicOp::MDI)
        } else if c == 0x0a {
            Some(BasicOp::AND)
        } else if c == 0x0b {
            Some(BasicOp::BOR)
        } else if c == 0x0c {
            Some(BasicOp::XOR)
        } else if c == 0x0d {
            Some(BasicOp::SHR)
        } else if c == 0x0e {
            Some(BasicOp::ASR)
        } else if c == 0x0f {
            Some(BasicOp::SHL)
        } else if c == 0x10 {
            Some(BasicOp::IFB)
        } else if c == 0x11 {
            Some(BasicOp::IFC)
        } else if c == 0x12 {
            Some(BasicOp::IFE)
        } else if c == 0x13 {
            Some(BasicOp::IFN)
        } else if c == 0x14 {
            Some(BasicOp::IFG)
        } else if c == 0x15 {
            Some(BasicOp::IFA)
        } else if c == 0x16 {
            Some(BasicOp::IFL)
        } else if c == 0x17 {
            Some(BasicOp::IFU)
        } else if c == 0x1a {
            Some(BasicOp::ADX)
        } else if c == 0x1b {
            Some(BasicOp::SBX)
        } else if c == 0x1e {
            Some(BasicOp::STI)
        } else if c == 0x1f {
            Some(BasicOp::STD)
        } else {
            None
        }
    }

    pub fn from_code(c: u16) -> (r: Option<BasicOp>)
        ensures
            r == BasicOp::spec_from_code(c),
    {
        if c == 0x01 {
            Some(BasicOp::SET)
        } else if c == 0x02 {
            Some(BasicOp::ADD)
        } else if c == 0x03 {
            Some(BasicOp::SUB)
        } else if c == 0x04 {
            Some(BasicOp::MUL)
        } else if c == 0x05 {
            Some(BasicOp::MLI)
        } else if c == 0x06 {
            Some(BasicOp::DIV)
        } else if c == 0x07 {
            Some(BasicOp::DVI)
        } else if c == 0x08 {
            Some(BasicOp::MOD)
        } else if c == 0x09 {
            Some(BasicOp::MDI)
        } else if c == 0x0a {
            Some(BasicOp::AND)
        } else if c == 0x0b {
            Some(BasicOp::BOR)
        } else if c == 0x0c {
            Some(BasicOp::XOR)
        } else if c == 0x0d {
            Some(BasicOp::SHR)
        } else if c == 0x0e {
            Some(BasicOp::ASR)
        } else if c == 0x0f {
            Some(BasicOp::SHL)
        } else if c == 0x10 {
            Some(BasicOp::IFB)
        } else if c == 0x11 {
            Some(BasicOp::IFC)
        } else if c == 0x12 {
            Some(BasicOp::IFE)
        } else if c == 0x13 {
            Some(BasicOp::IFN)
        } else if c == 0x14 {
            Some(BasicOp::IFG)
        } else if c == 0x15 {
            Some(BasicOp::IFA)
        } else if c == 0x16 {
            Some(BasicOp::IFL)
        } else if c == 0x17 {
            Some(BasicOp::IFU)
        } else if c == 0x1a {
            Some(BasicOp::ADX)
        } else if c == 0x1b {
            Some(BasicOp::SBX)
        } else if c == 0x1e {
            Some(BasicOp::STI)
        } else if c == 0x1f {
            Some(BasicOp::STD)
        } else {
            None
        }
    }

    /// The conditional family: a false predicate makes the next
    /// instruction be skipped, and skipped conditionals chain.
    pub open spec fn spec_is_conditional(self) -> bool {
        0x10 <= self.spec_code() <= 0x17
    }

    #[verifier::when_used_as_spec(spec_is_conditional)]
    pub fn is_conditional(self) -> (b: bool)
        ensures
            b == self.spec_is_conditional(),
    {
        let c = self.code();
        0x10 <= c && c <= 0x17
    }

    /// Whether the opcode writes a result back into its `b` operand.
    pub open spec fn spec_writes_back(self) -> bool {
        !self.spec_is_conditional()
    }

    #[verifier::when_used_as_spec(spec_writes_back)]
    pub fn writes_back(self) -> (b: bool)
        ensures
            b == self.spec_writes_back(),
    {
        !self.is_conditional()
    }

    /// Base cycle cost, before per-extra-word and penalty additions.
    pub open spec fn spec_base_cycles(self) -> u16 {
        match self {
            BasicOp::SET => 1,
            BasicOp::ADD => 2,
            BasicOp::SUB => 2,
            BasicOp::MUL => 2,
            BasicOp::MLI => 2,
            BasicOp::DIV => 3,
            BasicOp::DVI => 3,
            BasicOp::MOD => 3,
            BasicOp::MDI => 3,
            BasicOp::AND => 1,
            BasicOp::BOR => 1,
            BasicOp::XOR => 1,
            BasicOp::SHR => 1,
            BasicOp::ASR => 1,
            BasicOp::SHL => 1,
            BasicOp::IFB => 2,
            BasicOp::IFC => 2,
            BasicOp::IFE => 2,
            BasicOp::IFN => 2,
            BasicOp::IFG => 2,
            BasicOp::IFA => 2,
            BasicOp::IFL => 2,
            BasicOp::IFU => 2,
            BasicOp::ADX => 3,
            BasicOp::SBX => 3,
            BasicOp::STI => 2,
            BasicOp::STD => 2,
        }
    }

    #[verifier::when_used_as_spec(spec_base_cycles)]
    pub fn base_cycles(self) -> (n: u16)
        ensures
            n == self.spec_base_cycles(),
    {
        match self {
            BasicOp::SET => 1,
            BasicOp::ADD => 2,
            BasicOp::SUB => 2,
            BasicOp::MUL => 2,
            BasicOp::MLI => 2,
            BasicOp::DIV => 3,
            BasicOp::DVI => 3,
            BasicOp::MOD => 3,
            BasicOp::MDI => 3,
            BasicOp::AND => 1,
            BasicOp::BOR => 1,
            BasicOp::XOR => 1,
            BasicOp::SHR => 1,
            BasicOp::ASR => 1,
            BasicOp::SHL => 1,
            BasicOp::IFB => 2,
            BasicOp::IFC => 2,
            BasicOp::IFE => 2,
            BasicOp::IFN => 2,
            BasicOp::IFG => 2,
            BasicOp::IFA => 2,
            BasicOp::IFL => 2,
            BasicOp::IFU => 2,
            BasicOp::ADX => 3,
            BasicOp::SBX => 3,
            BasicOp::STI => 2,
            BasicOp::STD => 2,
        }
    }
}

/// The one-operand opcodes, carried in the `b` field of a word whose low
/// five bits are zero.
#[derive(Debug, Clone, Copy, PartialEq, Eq, Hash, Structural)]
pub enum SpecialOp {
    JSR,
    INT,
    IAG,
    IAS,
    RFI,
    IAQ,
    HWN,
    HWQ,
    HWI,
}

impl SpecialOp {
    /// The 5-bit special-opcode field.
    pub open spec fn spec_code(self) -> u16 {
        match self {
            SpecialOp::JSR => 0x01,
            SpecialOp::INT => 0x08,
            SpecialOp::IAG => 0x09,
            SpecialOp::IAS => 0x0a,
            SpecialOp::RFI => 0x0b,
            SpecialOp::IAQ => 0x0c,
            SpecialOp::HWN => 0x10,
            SpecialOp::HWQ => 0x11,
            SpecialOp::HWI => 0x12,
        }
    }

    #[verifier::when_used_as_spec(spec_code)]
    pub fn code(self) -> (c: u16)
        ensures
            c == self.spec_code(),
    {
        match self {
            SpecialOp::JSR => 0x01,
            SpecialOp::INT => 0x08,
            SpecialOp::IAG => 0x09,
            SpecialOp::IAS => 0x0a,
            SpecialOp::RFI => 0x0b,
            SpecialOp::IAQ => 0x0c,
            SpecialOp::HWN => 0x10,
            SpecialOp::HWQ => 0x11,
            SpecialOp::HWI => 0x12,
        }
    }

    /// The special opcode carried by a 5-bit code, if any.
    pub open spec fn spec_from_code(c: u16) -> Option<SpecialOp> {
        if c == 0x01 {
            Some(SpecialOp::JSR)
        } else if c == 0x08 {
            Some(SpecialOp::INT)
        } else if c == 0x09 {
            Some(SpecialOp::IAG)
        } else if c == 0x0a {
            Some(SpecialOp::IAS)
        } else if c == 0x0b {
            Some(SpecialOp::RFI)
        } else if c == 0x0c {
            Some(SpecialOp::IAQ)
        } else if c == 0x10 {
            Some(SpecialOp::HWN)
        } else if c == 0x11 {
            Some(SpecialOp::HWQ)
        } else if c == 0x12 {
            Some(SpecialOp::HWI)
        } else {
            None
        }
    }

    pub fn from_code(c: u16) -> (r: Option<SpecialOp>)
        ensures
            r == SpecialOp::spec_from_code(c),
    {
        if c == 0x01 {
            Some(SpecialOp::JSR)
        } else if c == 0x08 {
            Some(SpecialOp::INT)
        } else if c == 0x09 {
            Some(SpecialOp::IAG)
        } else if c == 0x0a {
            Some(SpecialOp::IAS)
        } else if c == 0x0b {
            Some(SpecialOp::RFI)
        } else if c == 0x0c {
            Some(SpecialOp::IAQ)
        } else if c == 0x10 {
            Some(SpecialOp::HWN)
        } else if c == 0x11 {
            Some(SpecialOp::HWQ)
        } else if c == 0x12 {
            Some(SpecialOp::HWI)
        } else {
            None
        }
    }

    /// Base cycle cost, before per-extra-word additions.
    pub open spec fn spec_base_cycles(self) -> u16 {
        match self {
            SpecialOp::JSR => 3,
            SpecialOp::INT => 4,
            SpecialOp::IAG => 1,
            SpecialOp::IAS => 1,
            SpecialOp::RFI => 3,
            SpecialOp::IAQ => 2,
            SpecialOp::HWN => 2,
            SpecialOp::HWQ => 4,
            SpecialOp::HWI => 4,
        }
    }

    #[verifier::when_used_as_spec(spec_base_cycles)]
    pub fn base_cycles(self) -> (n: u16)
        ensures
            n == self.spec_base_cycles(),
    {
        match self {
            SpecialOp::JSR => 3,
            SpecialOp::INT => 4,
            SpecialOp::IAG => 1,
            SpecialOp::IAS => 1,
            SpecialOp::RFI => 3,
            SpecialOp::IAQ => 2,
            SpecialOp::HWN => 2,
            SpecialOp::HWQ => 4,
            SpecialOp::HWI => 4,
        }
    }
}

/// A post-resolution operand: every expression has become a concrete word.
#[derive(Debug, Clone, Copy, PartialEq, Eq, Hash, Structural)]
pub enum Value {
    Reg(Register),
    AtReg(Register),
    AtRegPlus(Register, u16),
    Push,
    Peek,
    Pick(u16),
    SP,
    PC,
    EX,
    AtAddr(u16),
    Litteral(u16),
}

/// A post-resolution instruction, ready to encode.
#[derive(Debug, Clone, Copy, PartialEq, Eq, Hash, Structural)]
pub enum Instruction {
    BasicOp(BasicOp, Value, Value),
    SpecialOp(SpecialOp, Value),
}

} // verus!
