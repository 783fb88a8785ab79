use vstd::prelude::*;

use crate::common::{lemma_reg_index_roundtrip, reg_from_index, reg_index, Register};


verus! {

/// The test that a comparing jump applies to its operand and `R0`.
#[derive(Debug, Clone, Copy, PartialEq, Eq, Structural)]
pub enum CmpjmpOperator {
    Eq,
    Ne,
    Ge,
    Le,
    Gt,
    Lt,
}

/// The number that selects the test in the instruction encoding.
pub open spec fn test_index(op: CmpjmpOperator) -> nat {
    match op {
        CmpjmpOperator::Eq => 0,
        CmpjmpOperator::Ne => 1,
        CmpjmpOperator::Ge => 2,
        CmpjmpOperator::Le => 3,
        CmpjmpOperator::Gt => 4,
        CmpjmpOperator::Lt => 5,
    }
}

/// The test selected by a number, if there is one.
pub open spec fn test_from_index(n: int) -> Option<CmpjmpOperator> {
    if n == 0 { Some(CmpjmpOperator::Eq) }
    else if n == 1 { Some(CmpjmpOperator::Ne) }
    else if n == 2 { Some(CmpjmpOperator::Ge) }
    else if n == 3 { Some(CmpjmpOperator::Le) }
    else if n == 4 { Some(CmpjmpOperator::Gt) }
    else if n == 5 { Some(CmpjmpOperator::Lt) }
    else { None }
}

impl CmpjmpOperator {
    /// The number of the test.
    pub fn as_index(self) -> (i: u8)
        ensures
            i == test_index(self),
            i < 6,
    {
        match self {
            CmpjmpOperator::Eq => 0,
            CmpjmpOperator::Ne => 1,
            CmpjmpOperator::Ge => 2,
            CmpjmpOperator::Le => 3,
            CmpjmpOperator::Gt => 4,
            CmpjmpOperator::Lt => 5,
        }
    }

    /// The test with number `n`, or `None` when `n` is 6 or more.
    pub fn from_repr(n: u8) -> (r: Option<CmpjmpOperator>)
        ensures
            r == test_from_index(n as int),
    {
        match n {
            0 => Some(CmpjmpOperator::Eq),
            1 => Some(CmpjmpOperator::Ne),
            2 => Some(CmpjmpOperator::Ge),
            3 => Some(CmpjmpOperator::Le),
            4 => Some(CmpjmpOperator::Gt),
            5 => Some(CmpjmpOperator::Lt),
            _ => None,
        }
    }
}

/// A machine instruction, decoded.
#[derive(Debug, Clone, Copy, PartialEq, Eq, Structural)]
pub enum StructuredInstruction {
    /// `0FFF`
    Nop,
    /// `1rxy`: load memory cell `xy` into register `r`.
    MovMemToReg(u8, Register),
    /// `2rxy`: load the value `xy` into register `r`.
    MovImmToReg(u8, Register),
    /// `3rxy`: store register `r` into memory cell `xy`.
    MovRegToMem(Register, u8),
    /// `40rs`: copy register `r` into register `s`.
    MovRegToReg { src: Register, dst: Register },
    /// `D0rs`: load register `r` from the memory cell that register `s` points to.
    MovIndirectToReg { dst: Register, src: Register },
    /// `E0rs`: store register `r` into the memory cell that register `s` points to.
    MovRegToIndirect { src: Register, dst: Register },
    /// `5rst`: integer addition of `s` and `t` into `r`.
    AddRegToRegInteger(Register, Register, Register),
    /// `6rst`: floating point addition of `s` and `t` into `r`.
    AddRegToRegFloat(Register, Register, Register),
    /// `7rst`: bitwise OR of `s` and `t` into `r`.
    OrRegToReg(Register, Register, Register),
    /// `8rst`: bitwise AND of `s` and `t` into `r`.
    AndRegToReg(Register, Register, Register),
    /// `9rst`: bitwise XOR of `s` and `t` into `r`.
    XorRegToReg(Register, Register, Register),
    /// `Ar0x`: rotate register `r` right by `x` bits.
    RotRegRight(Register, u8),
    /// `Brxy`: jump to `xy` when register `r` equals `R0`.
    JmpIfEqual(Register, u8),
    /// `C000`
    Halt,
    /// `Frxt`: jump to the address in `t` when `r` passes test `x` against `R0`;
    /// the fields are the test, `t` and `r`.
    JumpWithComparison(CmpjmpOperator, Register, Register),
}

/// The high nibble of a byte.
pub open spec fn hi(b: u8) -> int {
    (b / 16) as int
}

/// The low nibble of a byte.
pub open spec fn lo(b: u8) -> int {
    (b % 16) as int
}

/// The register named by a nibble.
pub open spec fn reg_of(n: int) -> Register {
    reg_from_index(n).unwrap()
}

/// A byte made of two nibbles.
#[verifier::opaque]
pub open spec fn nib(h: int, l: int) -> u8 {
    (h * 16 + l) as u8
}

/// An instruction that has an encoding: a rotation amount fits in a nibble.
pub open spec fn well_formed(i: StructuredInstruction) -> bool {
    match i {
        StructuredInstruction::RotRegRight(_, amount) => amount < 16,
        _ => true,
    }
}

/// What two bytes of memory mean as an instruction.
pub open spec fn spec_from_bytes(b0: u8, b1: u8) -> Option<StructuredInstruction> {
    let op = hi(b0);
    if op == 0x0 {
        if b0 == 0x0F && b1 == 0xFF { Some(StructuredInstruction::Nop) } else { None }
    } else if op == 0x1 {
        Some(StructuredInstruction::MovMemToReg(b1, reg_of(lo(b0))))
    } else if op == 0x2 {
        Some(StructuredInstruction::MovImmToReg(b1, reg_of(lo(b0))))
    } else if op == 0x3 {
        Some(StructuredInstruction::MovRegToMem(reg_of(lo(b0)), b1))
    } else if op == 0x4 {
        Some(StructuredInstruction::MovRegToReg { src: reg_of(hi(b1)), dst: reg_of(lo(b1)) })
    } else if op == 0x5 {
        Some(StructuredInstruction::AddRegToRegInteger(reg_of(lo(b0)), reg_of(hi(b1)), reg_of(lo(b1))))
    } else if op == 0x6 {
        Some(StructuredInstruction::AddRegToRegFloat(reg_of(lo(b0)), reg_of(hi(b1)), reg_of(lo(b1))))
    } else if op == 0x7 {
        Some(StructuredInstruction::OrRegToReg(reg_of(lo(b0)), reg_of(hi(b1)), reg_of(lo(b1))))
    } else if op == 0x8 {
        Some(StructuredInstruction::AndRegToReg(reg_of(lo(b0)), reg_of(hi(b1)), reg_of(lo(b1))))
    } else if op == 0x9 {
        Some(StructuredInstruction::XorRegToReg(reg_of(lo(b0)), reg_of(hi(b1)), reg_of(lo(b1))))
    } else if op == 0xA {
        Some(StructuredInstruction::RotRegRight(reg_of(lo(b0)), (b1 % 16) as u8))
    } else if op == 0xB {
        Some(StructuredInstruction::JmpIfEqual(reg_of(lo(b0)), b1))
    } else if op == 0xC {
        if b0 == 0xC0 && b1 == 0x00 { Some(StructuredInstruction::Halt) } else { None }
    } else if op == 0xD {
        if lo(b0) != 0 {
            None
        } else {
            Some(StructuredInstruction::MovIndirectToReg { dst: reg_of(hi(b1)), src: reg_of(lo(b1)) })
        }
    } else if op == 0xE {
        if lo(b0) != 0 {
            None
        } else {
            Some(StructuredInstruction::MovRegToIndirect { src: reg_of(hi(b1)), dst: reg_of(lo(b1)) })
        }
    } else {
        match test_from_index(hi(b1)) {
            Some(t) => Some(StructuredInstruction::JumpWithComparison(t, reg_of(lo(b1)), reg_of(lo(b0)))),
            None => None,
        }
    }
}

/// The two bytes that encode an instruction.
pub open spec fn spec_as_bytes(i: StructuredInstruction) -> (u8, u8) {
    match i {
        StructuredInstruction::Nop => (0x0F, 0xFF),
        StructuredInstruction::MovMemToReg(v, r) => (nib(1, reg_index(r) as int), v),
        StructuredInstruction::MovImmToReg(v, r) => (nib(2, reg_index(r) as int), v),
        StructuredInstruction::MovRegToMem(r, a) => (nib(3, reg_index(r) as int), a),
        StructuredInstruction::MovRegToReg { src, dst } => (0x40, nib(reg_index(src) as int, reg_index(dst) as int)),
        StructuredInstruction::MovIndirectToReg { dst, src } => (0xD0, nib(reg_index(dst) as int, reg_index(src) as int)),
        StructuredInstruction::MovRegToIndirect { src, dst } => (0xE0, nib(reg_index(src) as int, reg_index(dst) as int)),
        StructuredInstruction::AddRegToRegInteger(d, s, t) => (nib(5, reg_index(d) as int), nib(reg_index(s) as int, reg_index(t) as int)),
        StructuredInstruction::AddRegToRegFloat(d, s, t) => (nib(6, reg_index(d) as int), nib(reg_index(s) as int, reg_index(t) as int)),
        StructuredInstruction::OrRegToReg(d, s, t) => (nib(7, reg_index(d) as int), nib(reg_index(s) as int, reg_index(t) as int)),
        StructuredInstruction::AndRegToReg(d, s, t) => (nib(8, reg_index(d) as int), nib(reg_index(s) as int, reg_index(t) as int)),
        StructuredInstruction::XorRegToReg(d, s, t) => (nib(9, reg_index(d) as int), nib(reg_index(s) as int, reg_index(t) as int)),
        StructuredInstruction::RotRegRight(r, amount) => (nib(0xA, reg_index(r) as int), amount),
        StructuredInstruction::JmpIfEqual(r, a) => (nib(0xB, reg_index(r) as int), a),
        StructuredInstruction::Halt => (0xC0, 0x00),
        StructuredInstruction::JumpWithComparison(op, t, r) => (nib(0xF, reg_index(r) as int), nib(test_index(op) as int, reg_index(t) as int)),
    }
}

proof fn lemma_nibbles(b: u8)
    ensures
        b >> 4u8 == b / 16,
        b & 15u8 == b % 16,
{
    assert(b >> 4u8 == b / 16) by (bit_vector);
    assert(b & 15u8 == b % 16) by (bit_vector);
}

proof fn lemma_join(h: u8, l: u8)
    requires
        h < 16,
        l < 16,
    ensures
        ((h << 4u8) | l) == h * 16 + l,
{
    assert(h < 16 && l < 16 ==> ((h << 4u8) | l) == h * 16 + l) by (bit_vector);
}

proof fn lemma_nib_parts(h: int, l: int)
    requires
        0 <= h < 16,
        0 <= l < 16,
    ensures
        hi(nib(h, l)) == h,
        lo(nib(h, l)) == l,
        nib(h, l) == h * 16 + l,
{
    reveal(nib);
}

/// Decoding the encoding of a well-formed instruction gives it back.
#[verifier::rlimit(50)]
pub proof fn lemma_decode_encode(i: StructuredInstruction)
    requires
        well_formed(i),
    ensures
        spec_from_bytes(spec_as_bytes(i).0, spec_as_bytes(i).1) == Some(i),
{
    lemma_reg_index_roundtrip(Register::R0, 0);
    match i {
        StructuredInstruction::MovMemToReg(v, r) => {
            lemma_reg_index_roundtrip(r, 0);
            lemma_nib_parts(1, reg_index(r) as int);
        },
        StructuredInstruction::MovImmToReg(v, r) => {
            lemma_reg_index_roundtrip(r, 0);
            lemma_nib_parts(2, reg_index(r) as int);
        },
        StructuredInstruction::MovRegToMem(r, v) => {
            lemma_reg_index_roundtrip(r, 0);
            lemma_nib_parts(3, reg_index(r) as int);
        },
        StructuredInstruction::MovRegToReg { src, dst } => {
            lemma_reg_index_roundtrip(src, 0);
            lemma_reg_index_roundtrip(dst, 0);
            lemma_nib_parts(reg_index(src) as int, reg_index(dst) as int);
        },
        StructuredInstruction::MovIndirectToReg { dst, src } => {
            lemma_reg_index_roundtrip(src, 0);
            lemma_reg_index_roundtrip(dst, 0);
            lemma_nib_parts(reg_index(dst) as int, reg_index(src) as int);
        },
        StructuredInstruction::MovRegToIndirect { src, dst } => {
            lemma_reg_index_roundtrip(src, 0);
            lemma_reg_index_roundtrip(dst, 0);
            lemma_nib_parts(reg_index(src) as int, reg_index(dst) as int);
        },
        StructuredInstruction::AddRegToRegInteger(d, s, t)
        | StructuredInstruction::AddRegToRegFloat(d, s, t)
        | StructuredInstruction::OrRegToReg(d, s, t)
        | StructuredInstruction::AndRegToReg(d, s, t)
        | StructuredInstruction::XorRegToReg(d, s, t) => {
            lemma_reg_index_roundtrip(d, 0);
            lemma_reg_index_roundtrip(s, 0);
            lemma_reg_index_roundtrip(t, 0);
            lemma_nib_parts(reg_index(s) as int, reg_index(t) as int);
            lemma_nib_parts(5, reg_index(d) as int);
            lemma_nib_parts(6, reg_index(d) as int);
            lemma_nib_parts(7, reg_index(d) as int);
            lemma_nib_parts(8, reg_index(d) as int);
            lemma_nib_parts(9, reg_index(d) as int);
        },
        StructuredInstruction::RotRegRight(r, amount) => {
            lemma_reg_index_roundtrip(r, 0);
            lemma_nib_parts(0xA, reg_index(r) as int);
        },
        StructuredInstruction::JmpIfEqual(r, a) => {
            lemma_reg_index_roundtrip(r, 0);
            lemma_nib_parts(0xB, reg_index(r) as int);
        },
        StructuredInstruction::JumpWithComparison(op, t, r) => {
            lemma_reg_index_roundtrip(r, 0);
            lemma_reg_index_roundtrip(t, 0);
            lemma_nib_parts(0xF, reg_index(r) as int);
            lemma_nib_parts(test_index(op) as int, reg_index(t) as int);
        },
        _ => {},
    }
}

/// Every decoded instruction is well formed, and re-encoding it gives back the
/// bytes it came from, except for the nibbles that the decoding ignores (the
/// second nibble of a register copy and the third nibble of a rotation).
pub proof fn lemma_encode_decode(b0: u8, b1: u8)
    requires
        spec_from_bytes(b0, b1) is Some,
    ensures
        well_formed(spec_from_bytes(b0, b1).unwrap()),
        (hi(b0) != 4 || lo(b0) == 0) && (hi(b0) != 0xA || hi(b1) == 0) ==>
            spec_as_bytes(spec_from_bytes(b0, b1).unwrap()) == (b0, b1),
        spec_from_bytes(spec_as_bytes(spec_from_bytes(b0, b1).unwrap()).0,
            spec_as_bytes(spec_from_bytes(b0, b1).unwrap()).1) == spec_from_bytes(b0, b1),
{
    let i = spec_from_bytes(b0, b1).unwrap();
    lemma_reg_index_roundtrip(Register::R0, lo(b0));
    lemma_reg_index_roundtrip(Register::R0, hi(b1));
    lemma_reg_index_roundtrip(Register::R0, lo(b1));
    reveal(nib);
    assert(b0 == nib(hi(b0), lo(b0)));
    assert(b1 == nib(hi(b1), lo(b1)));
    lemma_decode_encode(i);
}

impl StructuredInstruction {
    /// Decodes two bytes of memory; `None` when they are no instruction.
    pub fn from_bytes(bytes: [u8; 2]) -> (r: Option<Self>)
        ensures
            r == spec_from_bytes(bytes@[0], bytes@[1]),
    {
        let b0 = bytes[0];
        let b1 = bytes[1];
        proof {
            lemma_nibbles(b0);
            lemma_nibbles(b1);
            lemma_reg_index_roundtrip(Register::R0, lo(b0));
            lemma_reg_index_roundtrip(Register::R0, hi(b1));
            lemma_reg_index_roundtrip(Register::R0, lo(b1));
        }
        let op = b0 >> 4;
        let r_lo0 = b0 & 0x0F;
        let r_hi1 = b1 >> 4;
        let r_lo1 = b1 & 0x0F;
        if op == 0x0 {
            if b0 == 0x0F && b1 == 0xFF { Some(StructuredInstruction::Nop) } else { None }
        } else if op == 0x1 {
            Some(StructuredInstruction::MovMemToReg(b1, Register::from_repr(r_lo0).unwrap()))
        } else if op == 0x2 {
            Some(StructuredInstruction::MovImmToReg(b1, Register::from_repr(r_lo0).unwrap()))
        } else if op == 0x3 {
            Some(StructuredInstruction::MovRegToMem(Register::from_repr(r_lo0).unwrap(), b1))
        } else if op == 0x4 {
            let src = Register::from_repr(r_hi1).unwrap();
            let dst = Register::from_repr(r_lo1).unwrap();
            Some(StructuredInstruction::MovRegToReg { src, dst })
        } else if op == 0xD {
            if r_lo0 != 0 {
                return None;
            }
            let dst = Register::from_repr(r_hi1).unwrap();
            let src = Register::from_repr(r_lo1).unwrap();
            Some(StructuredInstruction::MovIndirectToReg { dst, src })
        } else if op == 0xE {
            if r_lo0 != 0 {
                return None;
            }
            let src = Register::from_repr(r_hi1).unwrap();
            let dst = Register::from_repr(r_lo1).unwrap();
            Some(StructuredInstruction::MovRegToIndirect { src, dst })
        } else if 0x5 <= op && op <= 0x9 {
            let r = Register::from_repr(r_lo0).unwrap();
            let s = Register::from_repr(r_hi1).unwrap();
            let t = Register::from_repr(r_lo1).unwrap();
            if op == 0x5 {
                Some(StructuredInstruction::AddRegToRegInteger(r, s, t))
            } else if op == 0x6 {
                Some(StructuredInstruction::AddRegToRegFloat(r, s, t))
            } else if op == 0x7 {
                Some(StructuredInstruction::OrRegToReg(r, s, t))
            } else if op == 0x8 {
                Some(StructuredInstruction::AndRegToReg(r, s, t))
            } else {
                Some(StructuredInstruction::XorRegToReg(r, s, t))
            }
        } else if op == 0xA {
            let target = Register::from_repr(r_lo0).unwrap();
            Some(StructuredInstruction::RotRegRight(target, r_lo1))
        } else if op == 0xB {
            let comparison_operand = Register::from_repr(r_lo0).unwrap();
            Some(StructuredInstruction::JmpIfEqual(comparison_operand, b1))
        } else if op == 0xC {
            if b0 == 0xC0 && b1 == 0x00 { Some(StructuredInstruction::Halt) } else { None }
        } else {
            let comparison_operand = Register::from_repr(r_lo0).unwrap();
            let operator = match CmpjmpOperator::from_repr(r_hi1) {
                Some(o) => o,
                None => return None,
            };
            let jmp_location = Register::from_repr(r_lo1).unwrap();
            Some(StructuredInstruction::JumpWithComparison(operator, jmp_location, comparison_operand))
        }
    }

    /// Encodes the instruction as two bytes.
    pub fn as_bytes(&self) -> (b: [u8; 2])
        ensures
            b@[0] == spec_as_bytes(*self).0,
            b@[1] == spec_as_bytes(*self).1,
    {
        let p = self.encode_pair();
        [p.0, p.1]
    }

    fn encode_pair(&self) -> (p: (u8, u8))
        ensures
            p == spec_as_bytes(*self),
    {
        match self {
            StructuredInstruction::MovMemToReg(value, dst) => {
                let p = (join(1, dst.as_index()), *value);
                assert(p == spec_as_bytes(*self));
                p
            },
            StructuredInstruction::MovImmToReg(value, dst) => {
                let p = (join(2, dst.as_index()), *value);
                assert(p == spec_as_bytes(*self));
                p
            },
            StructuredInstruction::MovRegToMem(src, addr) => {
                let p = (join(3, src.as_index()), *addr);
                assert(p == spec_as_bytes(*self));
                p
            },
            StructuredInstruction::MovRegToReg { src, dst } => {
                let p = (0x40, join(src.as_index(), dst.as_index()));
                assert(p == spec_as_bytes(*self));
                p
            },
            StructuredInstruction::MovIndirectToReg { dst, src } => {
                let p = (0xD0, join(dst.as_index(), src.as_index()));
                assert(p == spec_as_bytes(*self));
                p
            },
            StructuredInstruction::MovRegToIndirect { src, dst } => {
                let p = (0xE0, join(src.as_index(), dst.as_index()));
                assert(p == spec_as_bytes(*self));
                p
            },
            StructuredInstruction::AddRegToRegInteger(dst, s1, s2) => {
                let p = (join(5, dst.as_index()), join(s1.as_index(), s2.as_index()));
                assert(p == spec_as_bytes(*self));
                p
            },
            StructuredInstruction::AddRegToRegFloat(dst, s1, s2) => {
                let p = (join(6, dst.as_index()), join(s1.as_index(), s2.as_index()));
                assert(p == spec_as_bytes(*self));
                p
            },
            StructuredInstruction::OrRegToReg(dst, s1, s2) => {
                let p = (join(7, dst.as_index()), join(s1.as_index(), s2.as_index()));
                assert(p == spec_as_bytes(*self));
                p
            },
            StructuredInstruction::AndRegToReg(dst, s1, s2) => {
                let p = (join(8, dst.as_index()), join(s1.as_index(), s2.as_index()));
                assert(p == spec_as_bytes(*self));
                p
            },
            StructuredInstruction::XorRegToReg(dst, s1, s2) => {
                let p = (join(9, dst.as_index()), join(s1.as_index(), s2.as_index()));
                assert(p == spec_as_bytes(*self));
                p
            },
            StructuredInstruction::RotRegRight(target, amount) => {
                let p = (join(0xA, target.as_index()), *amount);
                assert(p == spec_as_bytes(*self));
                p
            },
            StructuredInstruction::JmpIfEqual(r, loc) => {
                let p = (join(0xB, r.as_index()), *loc);
                assert(p == spec_as_bytes(*self));
                p
            },
            StructuredInstruction::Halt => {
                let p = (0xC0, 0);
                assert(p == spec_as_bytes(*self));
                p
            },
            StructuredInstruction::JumpWithComparison(op, loc, r) => {
                let p = (join(0xF, r.as_index()), join(op.as_index(), loc.as_index()));
                assert(p == spec_as_bytes(*self));
                p
            },
            StructuredInstruction::Nop => {
                let p = (0x0F, 0xFF);
                assert(p == spec_as_bytes(*self));
                p
            },
        }
    }
}

/// A byte made of a high and a low nibble.
fn join(h: u8, l: u8) -> (b: u8)
    requires
        h < 16,
        l < 16,
    ensures
        b == nib(h as int, l as int),
{
    proof {
        lemma_join(h, l);
        reveal(nib);
    }
    (h << 4) | l
}

} // verus!
