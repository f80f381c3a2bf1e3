//! The stepping CPU interpreter: eight general registers, PC, SP, EX and
//! IA, 65,536 words of memory, a cycle counter, a bounded FIFO interrupt
//! queue, and the conditional-skip chain. One `tick` executes one
//! instruction (a skipped one is consumed in one cycle); hardware access
//! is returned to the caller as an action rather than performed here.

use vstd::prelude::*;

use crate::codec::spec_decode;
use crate::codec::decode;
use crate::types::{spec_signed, spec_wadd, spec_wsub, BasicOp, Instruction, Register, SpecialOp, Value};

verus! {

/// The identity triple of an attached hardware device.
#[derive(Debug, Clone, Copy, PartialEq, Eq, Structural)]
pub struct Device {
    pub id: u32,
    pub version: u16,
    pub manufacturer: u32,
}

/// A fault that stops the CPU.
#[derive(Debug, Clone, Copy, PartialEq, Eq, Structural)]
pub enum CpuError {
    /// The fetched word holds no assigned opcode.
    InvalidOpcode(u16),
    /// The interrupt queue overflowed its 256 messages: the CPU catches
    /// fire.
    OnFire,
}

/// What one tick asks of its caller: the cycles consumed, and the device
/// whose interrupt handler must now run, if an HWI addressed one.
#[derive(Debug, Clone, Copy, PartialEq, Eq, Structural)]
pub struct TickAction {
    pub cycles: u16,
    pub hardware: Option<u16>,
}

/// The mathematical state of the machine.
pub struct CpuV {
    pub regs: Seq<u16>,
    pub pc: u16,
    pub sp: u16,
    pub ex: u16,
    pub ia: u16,
    pub mem: Seq<u16>,
    pub cycles: u64,
    pub queue: Seq<u16>,
    pub queueing: bool,
    pub skip: bool,
    pub devices: Seq<Device>,
}

/// The machine.
pub struct Cpu {
    pub regs: Vec<u16>,
    pub pc: u16,
    pub sp: u16,
    pub ex: u16,
    pub ia: u16,
    pub mem: Vec<u16>,
    pub cycles: u64,
    pub queue: Vec<u16>,
    pub queueing: bool,
    pub skip: bool,
    pub devices: Vec<Device>,
}

impl View for Cpu {
    type V = CpuV;

    open spec fn view(&self) -> CpuV {
        CpuV {
            regs: self.regs@,
            pc: self.pc,
            sp: self.sp,
            ex: self.ex,
            ia: self.ia,
            mem: self.mem@,
            cycles: self.cycles,
            queue: self.queue@,
            queueing: self.queueing,
            skip: self.skip,
            devices: self.devices@,
        }
    }
}

/// The capacity of the interrupt queue.
pub open spec fn queue_capacity() -> nat {
    256
}

/// Well-formedness: eight registers, a full word-addressed memory, the
/// queue within capacity, and a device count that fits HWN's result.
pub open spec fn cpu_wf(s: CpuV) -> bool {
    &&& s.regs.len() == 8
    &&& s.mem.len() == 0x10000
    &&& s.queue.len() <= queue_capacity()
    &&& s.devices.len() <= 0xffff
}

/// A resolved write destination: a register, a memory word, a special
/// register, or nowhere (a literal, whose writes are silently dropped).
#[derive(Debug, Clone, Copy, PartialEq, Eq, Structural)]
pub enum Target {
    Reg(Register),
    Mem(u16),
    SP,
    PC,
    EX,
    Lit(u16),
}

/// Resolves an operand to its target, performing the stack effect its
/// position calls for: 0x18 pops in position `a` and pushes in position
/// `b`. Operands that name PC see the post-fetch PC.
pub open spec fn spec_locate(s: CpuV, v: Value, in_a: bool) -> (CpuV, Target) {
    match v {
        Value::Reg(r) => (s, Target::Reg(r)),
        Value::AtReg(r) => (s, Target::Mem(s.regs[r.spec_code() as int])),
        Value::AtRegPlus(r, off) => (s, Target::Mem(spec_wadd(s.regs[r.spec_code() as int], off))),
        Value::Push => if in_a {
            (CpuV { sp: spec_wadd(s.sp, 1), ..s }, Target::Mem(s.sp))
        } else {
            (CpuV { sp: spec_wsub(s.sp, 1), ..s }, Target::Mem(spec_wsub(s.sp, 1)))
        },
        Value::Peek => (s, Target::Mem(s.sp)),
        Value::Pick(n) => (s, Target::Mem(spec_wadd(s.sp, n))),
        Value::SP => (s, Target::SP),
        Value::PC => (s, Target::PC),
        Value::EX => (s, Target::EX),
        Value::AtAddr(addr) => (s, Target::Mem(addr)),
        Value::Litteral(n) => (s, Target::Lit(n)),
    }
}

/// The word a target holds.
pub open spec fn spec_read(s: CpuV, t: Target) -> u16 {
    match t {
        Target::Reg(r) => s.regs[r.spec_code() as int],
        Target::Mem(addr) => s.mem[addr as int],
        Target::SP => s.sp,
        Target::PC => s.pc,
        Target::EX => s.ex,
        Target::Lit(n) => n,
    }
}

/// The state after writing a word to a target; a literal target absorbs
/// the write.
pub open spec fn spec_write(s: CpuV, t: Target, val: u16) -> CpuV {
    match t {
        Target::Reg(r) => CpuV { regs: s.regs.update(r.spec_code() as int, val), ..s },
        Target::Mem(addr) => CpuV { mem: s.mem.update(addr as int, val), ..s },
        Target::SP => CpuV { sp: val, ..s },
        Target::PC => CpuV { pc: val, ..s },
        Target::EX => CpuV { ex: val, ..s },
        Target::Lit(_) => s,
    }
}

/// The 32-bit two's-complement extension of a word.
pub open spec fn spec_sext32(x: u16) -> u32 {
    if x >= 0x8000 {
        (x + 0xffff_0000) as u32
    } else {
        x as u32
    }
}

/// The magnitude of a word read as signed.
pub open spec fn spec_mag(x: u16) -> u32 {
    if x >= 0x8000 {
        (0x10000 - x) as u32
    } else {
        x as u32
    }
}

/// The word congruent to the negation of a nonnegative quantity.
pub open spec fn spec_negate(m: int) -> u16
    recommends
        m >= 0,
{
    ((0x10000 - (m % 0x10000)) % 0x10000) as u16
}

/// What an arithmetic opcode computes from the destination value `bv`,
/// the source value `av` and the overflow register: the written word and
/// the new EX. Products, quotients and shifts follow the two's-complement
/// wire formulas: EX takes the high half of products and the shifted-out
/// half of shifts, division by zero yields zero in both, and shifts of 32
/// or more vanish entirely.
pub open spec fn spec_alu(op: BasicOp, bv: u16, av: u16, ex: u16) -> (u16, u16) {
    match op {
        BasicOp::SET => (av, ex),
        BasicOp::ADD => {
            let sum = bv + av;
            ((sum % 0x10000) as u16, if sum > 0xffff {
                1u16
            } else {
                0u16
            })
        },
        BasicOp::SUB => (spec_wsub(bv, av), if av > bv {
            0xffffu16
        } else {
            0u16
        }),
        BasicOp::MUL => {
            let p = (bv as u32) * (av as u32);
            (((p % 0x10000) as u16), ((p / 0x10000) as u16))
        },
        BasicOp::MLI => {
            let p = ((spec_sext32(bv) * spec_sext32(av)) % 0x1_0000_0000) as u32;
            (((p % 0x10000) as u16), (((p / 0x10000) % 0x10000) as u16))
        },
        BasicOp::DIV => if av == 0 {
            (0u16, 0u16)
        } else {
            let e = ((bv as u32) * 0x10000) as int / (av as int);
            ((bv / av), ((e % 0x10000) as u16))
        },
        BasicOp::DVI => if av == 0 {
            (0u16, 0u16)
        } else {
            let q = spec_mag(bv) as int / spec_mag(av) as int;
            let e = (spec_mag(bv) * 0x10000) as int / spec_mag(av) as int;
            if (bv >= 0x8000) != (av >= 0x8000) {
                (spec_negate(q), spec_negate(e))
            } else {
                (((q % 0x10000) as u16), ((e % 0x10000) as u16))
            }
        },
        BasicOp::MOD => if av == 0 {
            (0u16, ex)
        } else {
            ((bv % av), ex)
        },
        BasicOp::MDI => if av == 0 {
            (0u16, ex)
        } else {
            let r = spec_mag(bv) as int % spec_mag(av) as int;
            (
                if bv >= 0x8000 {
                    spec_negate(r)
                } else {
                    (r as u16)
                },
                ex,
            )
        },
        BasicOp::AND => ((bv & av), ex),
        BasicOp::BOR => ((bv | av), ex),
        BasicOp::XOR => ((bv ^ av), ex),
        BasicOp::SHR => if av >= 32 {
            (0u16, 0u16)
        } else {
            let v = ((bv as u32) * 0x10000) as u32;
            let e = v >> (av as u32);
            (
                if av >= 16 {
                    0u16
                } else {
                    (bv >> av)
                },
                ((e % 0x10000) as u16),
            )
        },
        BasicOp::ASR => {
            let sh: u32 = if av <= 31 {
                av as u32
            } else {
                31
            };
            let v = ((bv as u32) * 0x10000) as u32;
            let out = if bv >= 0x8000 {
                (v >> sh) | (0xffff_ffffu32 ^ (0xffff_ffffu32 >> sh))
            } else {
                (v >> sh)
            };
            ((((out / 0x10000) % 0x10000) as u16), ((out % 0x10000) as u16))
        },
        BasicOp::SHL => if av >= 32 {
            (0u16, 0u16)
        } else {
            let big = (bv as u64) << (av as u64);
            (((big % 0x10000) as u16), (((big / 0x10000) % 0x10000) as u16))
        },
        BasicOp::ADX => {
            let sum = bv + av + ex;
            ((sum % 0x10000) as u16, if sum > 0xffff {
                1u16
            } else {
                0u16
            })
        },
        BasicOp::SBX => {
            let v = bv - av + ex;
            (
                ((v % 0x10000) as u16),
                if v < 0 {
                    0xffffu16
                } else if v > 0xffff {
                    1u16
                } else {
                    0u16
                },
            )
        },
        BasicOp::STI => (av, ex),
        BasicOp::STD => (av, ex),
        _ => (bv, ex),
    }
}

/// The predicate of a conditional opcode: bit test, bit clear, equality,
/// and the unsigned and signed orders.
pub open spec fn spec_cond(op: BasicOp, bv: u16, av: u16) -> bool {
    match op {
        BasicOp::IFB => (bv & av) != 0,
        BasicOp::IFC => (bv & av) == 0,
        BasicOp::IFE => bv == av,
        BasicOp::IFN => bv != av,
        BasicOp::IFG => bv > av,
        BasicOp::IFA => spec_signed(bv) > spec_signed(av),
        BasicOp::IFL => bv < av,
        BasicOp::IFU => spec_signed(bv) < spec_signed(av),
        _ => true,
    }
}

/// The cycle counter advances modulo 2^64.
pub open spec fn spec_cycles_add(c: u64, n: u16) -> u64 {
    ((c + n) % 0x1_0000_0000_0000_0000) as u64
}

/// Executes a basic instruction on the post-fetch state: operand `a` is
/// resolved first (with its pop effect), then operand `b` (with its push
/// effect); a conditional sets the skip flag from its failed predicate
/// instead of writing; STI and STD then step I and J. The cycle cost is
/// the opcode's base, plus one per extra word, plus one for a failed
/// conditional, plus one when a writing opcode lands in PC (a taken
/// branch).
#[verifier::opaque]
pub open spec fn spec_exec_basic(
    s: CpuV,
    op: BasicOp,
    b: Value,
    a: Value,
    extra: u16,
) -> (CpuV, TickAction) {
    let (s1, ta) = spec_locate(s, a, true);
    let av = spec_read(s1, ta);
    let (s2, tb) = spec_locate(s1, b, false);
    let bv = spec_read(s2, tb);
    if op.spec_is_conditional() {
        let pred = spec_cond(op, bv, av);
        let s3 = CpuV { skip: !pred, ..s2 };
        let cycles = (op.spec_base_cycles() + extra + if pred {
            0u16
        } else {
            1u16
        }) as u16;
        (s3, TickAction { cycles, hardware: None })
    } else {
        let (res, ex2) = spec_alu(op, bv, av, s2.ex);
        let s3 = CpuV { ex: ex2, ..spec_write(s2, tb, res) };
        let s4 = if op == BasicOp::STI {
            CpuV {
                regs: s3.regs.update(6, spec_wadd(s3.regs[6], 1)).update(
                    7,
                    spec_wadd(s3.regs[7], 1),
                ),
                ..s3
            }
        } else if op == BasicOp::STD {
            CpuV {
                regs: s3.regs.update(6, spec_wsub(s3.regs[6], 1)).update(
                    7,
                    spec_wsub(s3.regs[7], 1),
                ),
                ..s3
            }
        } else {
            s3
        };
        let cycles = (op.spec_base_cycles() + extra + if tb == Target::PC {
            1u16
        } else {
            0u16
        }) as u16;
        (s4, TickAction { cycles, hardware: None })
    }
}

/// Executes a special instruction on the post-fetch state. HWI hands the
/// addressed device index back to the caller as the action's `hardware`;
/// HWQ spreads the device identity over A, B, C, X and Y; an index past
/// the device list does nothing.
#[verifier::opaque]
pub open spec fn spec_exec_special(
    s: CpuV,
    op: SpecialOp,
    a: Value,
    extra: u16,
) -> (CpuV, Result<TickAction, CpuError>) {
    let (s1, ta) = spec_locate(s, a, true);
    let av = spec_read(s1, ta);
    let cycles = (op.spec_base_cycles() + extra) as u16;
    let done = TickAction { cycles, hardware: None };
    match op {
        SpecialOp::JSR => {
            let sp2 = spec_wsub(s1.sp, 1);
            let s2 = CpuV { sp: sp2, mem: s1.mem.update(sp2 as int, s1.pc), pc: av, ..s1 };
            (s2, Ok(done))
        },
        SpecialOp::INT => if s1.queue.len() >= queue_capacity() {
            (s1, Err(CpuError::OnFire))
        } else {
            (CpuV { queue: s1.queue.push(av), ..s1 }, Ok(done))
        },
        SpecialOp::IAG => (spec_write(s1, ta, s1.ia), Ok(done)),
        SpecialOp::IAS => (CpuV { ia: av, ..s1 }, Ok(done)),
        SpecialOp::RFI => {
            let a_val = s1.mem[s1.sp as int];
            let sp2 = spec_wadd(s1.sp, 1);
            let pc_val = s1.mem[sp2 as int];
            let sp3 = spec_wadd(sp2, 1);
            let s2 = CpuV {
                queueing: false,
                regs: s1.regs.update(0, a_val),
                pc: pc_val,
                sp: sp3,
                ..s1
            };
            (s2, Ok(done))
        },
        SpecialOp::IAQ => (CpuV { queueing: av != 0, ..s1 }, Ok(done)),
        SpecialOp::HWN => (spec_write(s1, ta, s1.devices.len() as u16), Ok(done)),
        SpecialOp::HWQ => if av < s1.devices.len() {
            let d = s1.devices[av as int];
            let regs = s1.regs.update(0, (d.id % 0x10000) as u16).update(
                1,
                (d.id / 0x10000) as u16,
            ).update(2, d.version).update(3, (d.manufacturer % 0x10000) as u16).update(
                4,
                (d.manufacturer / 0x10000) as u16,
            );
            (CpuV { regs, ..s1 }, Ok(done))
        } else {
            (s1, Ok(done))
        },
        SpecialOp::HWI => if av < s1.devices.len() {
            (s1, Ok(TickAction { cycles, hardware: Some(av) }))
        } else {
            (s1, Ok(done))
        },
    }
}

/// Interrupt entry: when a message is pending, interrupts are not queued
/// and IA is set, the CPU pops the message, pushes PC then A, jumps to IA
/// with the message in A, and turns queueing on until RFI.
pub open spec fn spec_dispatch(s: CpuV) -> CpuV {
    if s.queue.len() > 0 && !s.queueing && s.ia != 0 {
        let msg = s.queue[0];
        let sp1 = spec_wsub(s.sp, 1);
        let m1 = s.mem.update(sp1 as int, s.pc);
        let sp2 = spec_wsub(sp1, 1);
        let m2 = m1.update(sp2 as int, s.regs[0]);
        CpuV {
            queue: s.queue.drop_first(),
            queueing: true,
            sp: sp2,
            mem: m2,
            pc: s.ia,
            regs: s.regs.update(0, msg),
            ..s
        }
    } else {
        s
    }
}

/// The instruction at PC, decoded from the three-word window there.
pub open spec fn spec_fetch(s: CpuV) -> Option<(Instruction, u16)> {
    spec_decode(
        s.mem[s.pc as int],
        s.mem[spec_wadd(s.pc, 1) as int],
        s.mem[spec_wadd(s.pc, 2) as int],
    )
}

/// Whether an instruction belongs to the conditional family.
pub open spec fn spec_is_cond_instr(i: Instruction) -> bool {
    match i {
        Instruction::BasicOp(op, _, _) => op.spec_is_conditional(),
        Instruction::SpecialOp(_, _) => false,
    }
}

/// One tick: dispatch a pending interrupt, fetch and decode at PC (an
/// unassigned opcode faults with the state otherwise untouched), advance
/// PC past the whole instruction, then either consume it in one cycle
/// under the skip flag — which a conditional keeps set — or execute it.
/// The cycle counter absorbs the consumed cycles.
pub open spec fn spec_tick(s0: CpuV) -> (CpuV, Result<TickAction, CpuError>) {
    let s = spec_dispatch(s0);
    match spec_fetch(s) {
        None => (s, Err(CpuError::InvalidOpcode(s.mem[s.pc as int]))),
        Some((ins, width)) => {
            let s2 = CpuV { pc: spec_wadd(s.pc, width), ..s };
            let (s3, r) = if s2.skip {
                (
                    CpuV { skip: spec_is_cond_instr(ins), ..s2 },
                    Ok(TickAction { cycles: 1, hardware: None }),
                )
            } else {
                match ins {
                    Instruction::BasicOp(op, b, a) => {
                        let (sx, act) = spec_exec_basic(s2, op, b, a, (width - 1) as u16);
                        (sx, Ok(act))
                    },
                    Instruction::SpecialOp(op, a) => spec_exec_special(
                        s2,
                        op,
                        a,
                        (width - 1) as u16,
                    ),
                }
            };
            match r {
                Ok(act) => (
                    CpuV { cycles: spec_cycles_add(s3.cycles, act.cycles), ..s3 },
                    Ok(act),
                ),
                Err(e) => (s3, Err(e)),
            }
        },
    }
}

/// Word addition, wrapping modulo 2^16.
fn wadd(a: u16, b: u16) -> (c: u16)
    ensures
        c == spec_wadd(a, b),
{
    a.wrapping_add(b)
}

/// Word subtraction, wrapping modulo 2^16.
fn wsub(a: u16, b: u16) -> (c: u16)
    ensures
        c == spec_wsub(a, b),
{
    proof {
        vstd::arithmetic::div_mod::lemma_mod_multiples_vanish(1, a - b, 0x10000);
    }
    a.wrapping_sub(b)
}

/// The cycle counter advances modulo 2^64.
fn cycles_add(c: u64, n: u16) -> (r: u64)
    ensures
        r == spec_cycles_add(c, n),
{
    c.wrapping_add(n as u64)
}

/// The word congruent to the negation of a nonnegative quantity.
fn negate(m: u32) -> (r: u16)
    ensures
        r == spec_negate(m as int),
{
    let low = m % 0x10000;
    if low == 0 {
        0
    } else {
        (0x10000 - low) as u16
    }
}

/// The magnitude of a word read as signed.
fn mag(x: u16) -> (r: u32)
    ensures
        r == spec_mag(x),
        x != 0 ==> r != 0,
        r <= 0x8000,
{
    if x >= 0x8000 {
        0x10000 - (x as u32)
    } else {
        x as u32
    }
}

/// Signed order on words.
fn sgt(b: u16, a: u16) -> (r: bool)
    ensures
        r == (spec_signed(b) > spec_signed(a)),
{
    if (b >= 0x8000) == (a >= 0x8000) {
        b > a
    } else {
        a >= 0x8000
    }
}

/// What an arithmetic opcode computes: the written word and the new EX.
fn alu(op: BasicOp, bv: u16, av: u16, ex: u16) -> (r: (u16, u16))
    ensures
        r == spec_alu(op, bv, av, ex),
{
    match op {
        BasicOp::SET | BasicOp::STI | BasicOp::STD => (av, ex),
        BasicOp::ADD => {
            let sum = bv as u32 + av as u32;
            (
                (sum % 0x10000) as u16,
                if sum > 0xffff {
                    1
                } else {
                    0
                },
            )
        },
        BasicOp::SUB => (
            wsub(bv, av),
            if av > bv {
                0xffff
            } else {
                0
            },
        ),
        BasicOp::MUL => {
            proof {
                assert((bv as u32) * (av as u32) <= 0xffff * 0xffff) by (nonlinear_arith)
                    requires
                        bv <= 0xffff && av <= 0xffff,
                ;
            }
            let p = (bv as u32) * (av as u32);
            ((p % 0x10000) as u16, (p / 0x10000) as u16)
        },
        BasicOp::MLI => {
            let sb: u32 = if bv >= 0x8000 {
                bv as u32 + 0xffff_0000
            } else {
                bv as u32
            };
            let sa: u32 = if av >= 0x8000 {
                av as u32 + 0xffff_0000
            } else {
                av as u32
            };
            let p = sb.wrapping_mul(sa);
            ((p % 0x10000) as u16, ((p / 0x10000) % 0x10000) as u16)
        },
        BasicOp::DIV => {
            if av == 0 {
                (0, 0)
            } else {
                let e = ((bv as u32) * 0x10000) / (av as u32);
                (bv / av, (e % 0x10000) as u16)
            }
        },
        BasicOp::DVI => {
            if av == 0 {
                (0, 0)
            } else {
                let bm = mag(bv);
                let am = mag(av);
                let q = bm / am;
                let e = (bm * 0x10000) / am;
                if (bv >= 0x8000) != (av >= 0x8000) {
                    (negate(q), negate(e))
                } else {
                    ((q % 0x10000) as u16, (e % 0x10000) as u16)
                }
            }
        },
        BasicOp::MOD => {
            if av == 0 {
                (0, ex)
            } else {
                (bv % av, ex)
            }
        },
        BasicOp::MDI => {
            if av == 0 {
                (0, ex)
            } else {
                let r = mag(bv) % mag(av);
                (
                    if bv >= 0x8000 {
                        negate(r)
                    } else {
                        r as u16
                    },
                    ex,
                )
            }
        },
        BasicOp::AND => (bv & av, ex),
        BasicOp::BOR => (bv | av, ex),
        BasicOp::XOR => (bv ^ av, ex),
        BasicOp::SHR => {
            if av >= 32 {
                (0, 0)
            } else {
                let v = (bv as u32) * 0x10000;
                let e = v >> (av as u32);
                (
                    if av >= 16 {
                        0
                    } else {
                        bv >> av
                    },
                    (e % 0x10000) as u16,
                )
            }
        },
        BasicOp::ASR => {
            let sh: u32 = if av <= 31 {
                av as u32
            } else {
                31
            };
            let v = (bv as u32) * 0x10000;
            let out = if bv >= 0x8000 {
                (v >> sh) | (0xffff_ffffu32 ^ (0xffff_ffffu32 >> sh))
            } else {
                v >> sh
            };
            (((out / 0x10000) % 0x10000) as u16, (out % 0x10000) as u16)
        },
        BasicOp::SHL => {
            if av >= 32 {
                (0, 0)
            } else {
                let big = (bv as u64) << (av as u64);
                ((big % 0x10000) as u16, ((big / 0x10000) % 0x10000) as u16)
            }
        },
        BasicOp::ADX => {
            let sum = bv as u32 + av as u32 + ex as u32;
            (
                (sum % 0x10000) as u16,
                if sum > 0xffff {
                    1
                } else {
                    0
                },
            )
        },
        BasicOp::SBX => {
            let v: i32 = bv as i32 - av as i32 + ex as i32;
            let res: u16 = if v < 0 {
                proof {
                    vstd::arithmetic::div_mod::lemma_mod_multiples_vanish(1, v as int, 0x10000);
                }
                (v + 0x10000) as u16
            } else {
                ((v as u32) % 0x10000) as u16
            };
            (
                res,
                if v < 0 {
                    0xffff
                } else if v > 0xffff {
                    1
                } else {
                    0
                },
            )
        },
        _ => (bv, ex),
    }
}

/// The predicate of a conditional opcode.
fn cond(op: BasicOp, bv: u16, av: u16) -> (r: bool)
    ensures
        r == spec_cond(op, bv, av),
{
    match op {
        BasicOp::IFB => (bv & av) != 0,
        BasicOp::IFC => (bv & av) == 0,
        BasicOp::IFE => bv == av,
        BasicOp::IFN => bv != av,
        BasicOp::IFG => bv > av,
        BasicOp::IFA => sgt(bv, av),
        BasicOp::IFL => bv < av,
        BasicOp::IFU => sgt(av, bv),
        _ => true,
    }
}

impl Cpu {
    /// Power-on state: all registers and memory zero, nothing queued, no
    /// devices.
    pub fn new() -> (c: Cpu)
        ensures
            cpu_wf(c@),
            c@.regs == Seq::new(8, |i: int| 0u16),
            c@.mem == Seq::new(0x10000, |i: int| 0u16),
            c@.pc == 0 && c@.sp == 0 && c@.ex == 0 && c@.ia == 0,
            c@.cycles == 0,
            c@.queue == Seq::<u16>::empty(),
            !c@.queueing && !c@.skip,
            c@.devices == Seq::<Device>::empty(),
    {
        let mut regs: Vec<u16> = Vec::new();
        let mut k: usize = 0;
        while k < 8
            invariant
                k <= 8,
                regs@ == Seq::new(k as nat, |i: int| 0u16),
            decreases 8 - k,
        {
            regs.push(0);
            proof {
                assert(regs@ =~= Seq::new((k + 1) as nat, |i: int| 0u16));
            }
            k = k + 1;
        }
        let mut mem: Vec<u16> = Vec::new();
        let mut j: usize = 0;
        while j < 0x10000
            invariant
                j <= 0x10000,
                mem@ == Seq::new(j as nat, |i: int| 0u16),
            decreases 0x10000 - j,
        {
            mem.push(0);
            proof {
                assert(mem@ =~= Seq::new((j + 1) as nat, |i: int| 0u16));
            }
            j = j + 1;
        }
        Cpu {
            regs,
            pc: 0,
            sp: 0,
            ex: 0,
            ia: 0,
            mem,
            cycles: 0,
            queue: Vec::new(),
            queueing: false,
            skip: false,
            devices: Vec::new(),
        }
    }

    /// Copies a ROM image into memory starting at `offset`.
    pub fn load(&mut self, rom: &Vec<u16>, offset: u16)
        requires
            cpu_wf(old(self)@),
            offset + rom@.len() <= 0x10000,
        ensures
            cpu_wf(final(self)@),
            final(self)@.mem.len() == 0x10000,
            forall|k: int|
                0 <= k < rom@.len() ==> final(self)@.mem[offset + k] == rom@[k],
            forall|k: int|
                0 <= k < 0x10000 && !(offset <= k < offset + rom@.len()) ==> final(self)@.mem[k] == old(self)@.mem[k],
            final(self)@ == (CpuV { mem: final(self)@.mem, ..old(self)@ }),
    {
        let mut k: usize = 0;
        while k < rom.len()
            invariant
                cpu_wf(self@),
                k <= rom@.len(),
                offset + rom@.len() <= 0x10000,
                forall|i: int| 0 <= i < k ==> self@.mem[offset + i] == rom@[i],
                forall|i: int|
                    0 <= i < 0x10000 && !(offset <= i < offset + k) ==> self@.mem[i] == old(self)@.mem[i],
                self@ == (CpuV { mem: self@.mem, ..old(self)@ }),
            decreases rom@.len() - k,
        {
            self.mem[offset as usize + k] = rom[k];
            k = k + 1;
        }
    }

    /// Attaches a device to the end of the bus.
    pub fn attach(&mut self, d: Device)
        requires
            cpu_wf(old(self)@),
            old(self)@.devices.len() < 0xffff,
        ensures
            cpu_wf(final(self)@),
            final(self)@ == (CpuV { devices: old(self)@.devices.push(d), ..old(self)@ }),
    {
        self.devices.push(d);
    }

    /// Delivers an interrupt message from outside (a device): it joins the
    /// FIFO queue, or the CPU catches fire when the queue is full.
    pub fn interrupt(&mut self, msg: u16) -> (r: Result<(), CpuError>)
        requires
            cpu_wf(old(self)@),
        ensures
            cpu_wf(final(self)@),
            old(self)@.queue.len() < queue_capacity() ==> r == Ok::<(), CpuError>(()) && final(self)@ == (CpuV { queue: old(self)@.queue.push(msg), ..old(self)@ }),
            old(self)@.queue.len() >= queue_capacity() ==> r == Err::<(), CpuError>(
                CpuError::OnFire,
            ) && final(self)@ == old(self)@,
    {
        if self.queue.len() < 256 {
            self.queue.push(msg);
            Ok(())
        } else {
            Err(CpuError::OnFire)
        }
    }

    /// Resolves an operand to its target, performing its stack effect.
    fn locate(&mut self, v: Value, in_a: bool) -> (t: Target)
        requires
            cpu_wf(old(self)@),
        ensures
            cpu_wf(final(self)@),
            final(self)@ == spec_locate(old(self)@, v, in_a).0,
            t == spec_locate(old(self)@, v, in_a).1,
    {
        match v {
            Value::Reg(r) => Target::Reg(r),
            Value::AtReg(r) => Target::Mem(self.regs[r.code() as usize]),
            Value::AtRegPlus(r, off) => Target::Mem(wadd(self.regs[r.code() as usize], off)),
            Value::Push => {
                if in_a {
                    let t = Target::Mem(self.sp);
                    self.sp = wadd(self.sp, 1);
                    t
                } else {
                    self.sp = wsub(self.sp, 1);
                    Target::Mem(self.sp)
                }
            },
            Value::Peek => Target::Mem(self.sp),
            Value::Pick(n) => Target::Mem(wadd(self.sp, n)),
            Value::SP => Target::SP,
            Value::PC => Target::PC,
            Value::EX => Target::EX,
            Value::AtAddr(addr) => Target::Mem(addr),
            Value::Litteral(n) => Target::Lit(n),
        }
    }

    /// The word a target holds.
    fn read_target(&self, t: Target) -> (v: u16)
        requires
            cpu_wf(self@),
        ensures
            v == spec_read(self@, t),
    {
        match t {
            Target::Reg(r) => self.regs[r.code() as usize],
            Target::Mem(addr) => self.mem[addr as usize],
            Target::SP => self.sp,
            Target::PC => self.pc,
            Target::EX => self.ex,
            Target::Lit(n) => n,
        }
    }

    /// Writes a word to a target; a literal target absorbs the write.
    fn write_target(&mut self, t: Target, val: u16)
        requires
            cpu_wf(old(self)@),
        ensures
            cpu_wf(final(self)@),
            final(self)@ == spec_write(old(self)@, t, val),
    {
        match t {
            Target::Reg(r) => {
                self.regs[r.code() as usize] = val;
            },
            Target::Mem(addr) => {
                self.mem[addr as usize] = val;
            },
            Target::SP => {
                self.sp = val;
            },
            Target::PC => {
                self.pc = val;
            },
            Target::EX => {
                self.ex = val;
            },
            Target::Lit(_) => {},
        }
    }

    /// Executes a decoded basic instruction on the post-fetch state.
    fn exec_basic(&mut self, op: BasicOp, b: Value, a: Value, extra: u16) -> (act: TickAction)
        requires
            cpu_wf(old(self)@),
            extra <= 2,
        ensures
            cpu_wf(final(self)@),
            final(self)@ == spec_exec_basic(old(self)@, op, b, a, extra).0,
            act == spec_exec_basic(old(self)@, op, b, a, extra).1,
    {
        proof {
            reveal(spec_exec_basic);
        }
        let ta = self.locate(a, true);
        let av = self.read_target(ta);
        let tb = self.locate(b, false);
        let bv = self.read_target(tb);
        if op.is_conditional() {
            let pred = cond(op, bv, av);
            self.skip = !pred;
            let cycles = op.base_cycles() + extra + if pred {
                0
            } else {
                1
            };
            TickAction { cycles, hardware: None }
        } else {
            let (res, ex2) = alu(op, bv, av, self.ex);
            self.write_target(tb, res);
            self.ex = ex2;
            match op {
                BasicOp::STI => {
                    self.regs[6] = wadd(self.regs[6], 1);
                    self.regs[7] = wadd(self.regs[7], 1);
                },
                BasicOp::STD => {
                    self.regs[6] = wsub(self.regs[6], 1);
                    self.regs[7] = wsub(self.regs[7], 1);
                },
                _ => {},
            }
            let cycles = op.base_cycles() + extra + if matches!(tb, Target::PC) {
                1
            } else {
                0
            };
            TickAction { cycles, hardware: None }
        }
    }

    /// Executes a decoded special instruction on the post-fetch state.
    fn exec_special(&mut self, op: SpecialOp, a: Value, extra: u16) -> (r: Result<
        TickAction,
        CpuError,
    >)
        requires
            cpu_wf(old(self)@),
            extra <= 1,
        ensures
            cpu_wf(final(self)@),
            final(self)@ == spec_exec_special(old(self)@, op, a, extra).0,
            r == spec_exec_special(old(self)@, op, a, extra).1,
    {
        proof {
            reveal(spec_exec_special);
        }
        let ta = self.locate(a, true);
        let av = self.read_target(ta);
        let cycles = op.base_cycles() + extra;
        let done = TickAction { cycles, hardware: None };
        match op {
            SpecialOp::JSR => {
                self.sp = wsub(self.sp, 1);
                self.mem[self.sp as usize] = self.pc;
                self.pc = av;
                Ok(done)
            },
            SpecialOp::INT => {
                if self.queue.len() >= 256 {
                    Err(CpuError::OnFire)
                } else {
                    self.queue.push(av);
                    Ok(done)
                }
            },
            SpecialOp::IAG => {
                let ia = self.ia;
                self.write_target(ta, ia);
                Ok(done)
            },
            SpecialOp::IAS => {
                self.ia = av;
                Ok(done)
            },
            SpecialOp::RFI => {
                self.queueing = false;
                self.regs[0] = self.mem[self.sp as usize];
                self.sp = wadd(self.sp, 1);
                self.pc = self.mem[self.sp as usize];
                self.sp = wadd(self.sp, 1);
                Ok(done)
            },
            SpecialOp::IAQ => {
                self.queueing = av != 0;
                Ok(done)
            },
            SpecialOp::HWN => {
                let n = self.devices.len() as u16;
                self.write_target(ta, n);
                Ok(done)
            },
            SpecialOp::HWQ => {
                if (av as usize) < self.devices.len() {
                    let d = self.devices[av as usize];
                    self.regs[0] = (d.id % 0x10000) as u16;
                    self.regs[1] = (d.id / 0x10000) as u16;
                    self.regs[2] = d.version;
                    self.regs[3] = (d.manufacturer % 0x10000) as u16;
                    self.regs[4] = (d.manufacturer / 0x10000) as u16;
                }
                Ok(done)
            },
            SpecialOp::HWI => {
                if (av as usize) < self.devices.len() {
                    Ok(TickAction { cycles, hardware: Some(av) })
                } else {
                    Ok(done)
                }
            },
        }
    }

    /// One tick: dispatch a pending interrupt, fetch, decode and execute
    /// one instruction, or consume it in one cycle under the skip flag.
    /// Returns the cycles spent and any hardware interrupt to run, or the
    /// fault that stopped the machine.
    #[verifier::rlimit(100)]
    pub fn tick(&mut self) -> (r: Result<TickAction, CpuError>)
        requires
            cpu_wf(old(self)@),
        ensures
            cpu_wf(final(self)@),
            final(self)@ == spec_tick(old(self)@).0,
            r == spec_tick(old(self)@).1,
    {
        if self.queue.len() > 0 && !self.queueing && self.ia != 0 {
            let msg = self.queue.remove(0);
            self.queueing = true;
            self.sp = wsub(self.sp, 1);
            let pc = self.pc;
            self.mem[self.sp as usize] = pc;
            self.sp = wsub(self.sp, 1);
            let a0 = self.regs[0];
            self.mem[self.sp as usize] = a0;
            self.pc = self.ia;
            self.regs[0] = msg;
            proof {
                assert(old(self)@.queue.remove(0) =~= old(self)@.queue.drop_first());
                assert(self@ == spec_dispatch(old(self)@));
            }
        }
        let ghost s = spec_dispatch(old(self)@);
        let w0 = self.mem[self.pc as usize];
        let w1 = self.mem[wadd(self.pc, 1) as usize];
        let w2 = self.mem[wadd(self.pc, 2) as usize];
        match decode(w0, w1, w2) {
            None => Err(CpuError::InvalidOpcode(w0)),
            Some((ins, width)) => {
                self.pc = wadd(self.pc, width);
                if self.skip {
                    self.skip = match ins {
                        Instruction::BasicOp(op, _, _) => op.is_conditional(),
                        Instruction::SpecialOp(_, _) => false,
                    };
                    self.cycles = cycles_add(self.cycles, 1);
                    Ok(TickAction { cycles: 1, hardware: None })
                } else {
                    match ins {
                        Instruction::BasicOp(op, b, a) => {
                            let act = self.exec_basic(op, b, a, width - 1);
                            self.cycles = cycles_add(self.cycles, act.cycles);
                            Ok(act)
                        },
                        Instruction::SpecialOp(op, a) => {
                            match self.exec_special(op, a, width - 1) {
                                Ok(act) => {
                                    self.cycles = cycles_add(self.cycles, act.cycles);
                                    Ok(act)
                                },
                                Err(e) => Err(e),
                            }
                        },
                    }
                }
            },
        }
    }
}

/// A chain of `n` conditionals followed by one non-conditional
/// instruction, laid out consecutively from PC.
pub open spec fn spec_chain(s: CpuV, n: nat) -> bool
    decreases n,
{
    match spec_fetch(s) {
        None => false,
        Some((ins, width)) => if n == 0 {
            !spec_is_cond_instr(ins)
        } else {
            spec_is_cond_instr(ins) && spec_chain(
                CpuV { pc: spec_wadd(s.pc, width), ..s },
                (n - 1) as nat,
            )
        },
    }
}

/// The address just past such a chain.
pub open spec fn chain_end(s: CpuV, n: nat) -> u16
    decreases n,
{
    match spec_fetch(s) {
        None => s.pc,
        Some((ins, width)) => if n == 0 {
            spec_wadd(s.pc, width)
        } else {
            chain_end(CpuV { pc: spec_wadd(s.pc, width), ..s }, (n - 1) as nat)
        },
    }
}

/// The state after `k` ticks.
pub open spec fn spec_run(s: CpuV, k: nat) -> CpuV
    decreases k,
{
    if k == 0 {
        s
    } else {
        spec_run(spec_tick(s).0, (k - 1) as nat)
    }
}

/// The chain shape and its end depend only on memory and PC.
proof fn lemma_chain_same(a: CpuV, b: CpuV, k: nat)
    requires
        a.mem == b.mem,
        a.pc == b.pc,
    ensures
        spec_chain(a, k) == spec_chain(b, k),
        chain_end(a, k) == chain_end(b, k),
    decreases k,
{
    assert(spec_fetch(a) == spec_fetch(b));
    if k != 0 {
        match spec_fetch(a) {
            Some((ins, width)) => {
                lemma_chain_same(
                    CpuV { pc: spec_wadd(a.pc, width), ..a },
                    CpuV { pc: spec_wadd(b.pc, width), ..b },
                    (k - 1) as nat,
                );
            },
            None => {},
        }
    }
}

/// Skip chain: with the skip flag set and the interrupt queue empty, a
/// chain of `n` conditionals followed by one non-conditional instruction
/// is consumed by exactly `n + 1` ticks, one cycle each; the flag then
/// falls, PC stands just past the chain, and nothing else has changed.
/// A tick taken under the skip flag, with nothing to dispatch, only
/// advances PC, settles the flag from the consumed instruction's family,
/// and costs one cycle.
proof fn lemma_tick_skipping(s: CpuV)
    requires
        s.skip,
        s.queue.len() == 0,
        spec_fetch(s) is Some,
    ensures
        spec_tick(s).0 == (CpuV {
            pc: spec_wadd(s.pc, spec_fetch(s)->Some_0.1),
            skip: spec_is_cond_instr(spec_fetch(s)->Some_0.0),
            cycles: spec_cycles_add(s.cycles, 1),
            ..s
        }),
        spec_tick(s).1 == Ok::<TickAction, CpuError>(TickAction { cycles: 1, hardware: None }),
{
    assert(spec_dispatch(s) == s);
}

#[verifier::rlimit(100)]
pub proof fn lemma_skip_chain(s: CpuV, n: nat)
    requires
        cpu_wf(s),
        s.skip,
        s.queue.len() == 0,
        spec_chain(s, n),
    ensures
        spec_run(s, n + 1) == (CpuV {
            pc: chain_end(s, n),
            skip: false,
            cycles: ((s.cycles + n + 1) % 0x1_0000_0000_0000_0000) as u64,
            ..s
        }),
        forall|k: nat|
            k <= n ==> #[trigger] spec_tick(spec_run(s, k)).1 == Ok::<TickAction, CpuError>(
                TickAction { cycles: 1, hardware: None },
            ),
    decreases n,
{
    let (ins, width) = spec_fetch(s)->Some_0;
    lemma_tick_skipping(s);
    let s1 = spec_tick(s).0;
    lemma_run_shift_k(s, 0);
    assert(spec_run(s1, 0) == s1);
    assert(spec_run(s, 1) == s1);
    let advanced = CpuV { pc: spec_wadd(s.pc, width), ..s };
    if n == 0 {
        assert((s.cycles + 1) % 0x1_0000_0000_0000_0000 == spec_cycles_add(s.cycles, 1));
    } else {
        lemma_chain_same(advanced, s1, (n - 1) as nat);
        lemma_skip_chain(s1, (n - 1) as nat);
        assert(spec_run(s1, n) == spec_run(s, n + 1)) by {
            lemma_run_shift_k(s, n);
        }
        assert(chain_end(s1, (n - 1) as nat) == chain_end(s, n));
        assert((s1.cycles + n) % 0x1_0000_0000_0000_0000 == (s.cycles + n + 1)
            % 0x1_0000_0000_0000_0000) by {
            vstd::arithmetic::div_mod::lemma_add_mod_noop(
                s.cycles + 1,
                n as int,
                0x1_0000_0000_0000_0000,
            );
            vstd::arithmetic::div_mod::lemma_mod_twice(n as int, 0x1_0000_0000_0000_0000);
            vstd::arithmetic::div_mod::lemma_mod_twice(
                (s.cycles + 1) % 0x1_0000_0000_0000_0000,
                0x1_0000_0000_0000_0000,
            );
        }
        assert forall|k: nat| k <= n implies #[trigger] spec_tick(spec_run(s, k)).1 == Ok::<
            TickAction,
            CpuError,
        >(TickAction { cycles: 1, hardware: None }) by {
            if k == 0 {
                assert(spec_tick(spec_run(s, 0)).1 == spec_tick(s).1);
            } else {
                lemma_run_shift_k(s, (k - 1) as nat);
                assert(spec_run(s, k) == spec_run(s1, (k - 1) as nat));
            }
        }
    }
}

/// Running `k + 1` ticks is one tick and then `k` more.
proof fn lemma_run_shift_k(s: CpuV, k: nat)
    ensures
        spec_run(s, k + 1) == spec_run(spec_tick(s).0, k),
    decreases k,
{
    if k != 0 {
        lemma_run_shift_k(spec_tick(s).0, (k - 1) as nat);
    }
}

} // verus!
