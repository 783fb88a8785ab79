use vstd::prelude::*;

verus! {

/// One of the sixteen general-purpose registers of the machine.
#[derive(Debug, Clone, Copy, PartialEq, Eq, Structural)]
pub enum Register {
    R0,
    R1,
    R2,
    R3,
    R4,
    R5,
    R6,
    R7,
    R8,
    R9,
    RA,
    RB,
    RC,
    RD,
    RE,
    RF,
}

/// The number of a register, `R0` being 0 and `RF` being 15.
#[verifier::opaque]
pub open spec fn reg_index(r: Register) -> nat {
    match r {
        Register::R0 => 0,
        Register::R1 => 1,
        Register::R2 => 2,
        Register::R3 => 3,
        Register::R4 => 4,
        Register::R5 => 5,
        Register::R6 => 6,
        Register::R7 => 7,
        Register::R8 => 8,
        Register::R9 => 9,
        Register::RA => 10,
        Register::RB => 11,
        Register::RC => 12,
        Register::RD => 13,
        Register::RE => 14,
        Register::RF => 15,
    }
}

/// The register with the given number, if there is one.
pub open spec fn reg_from_index(n: int) -> Option<Register> {
    if n == 0 { Some(Register::R0) }
    else if n == 1 { Some(Register::R1) }
    else if n == 2 { Some(Register::R2) }
    else if n == 3 { Some(Register::R3) }
    else if n == 4 { Some(Register::R4) }
    else if n == 5 { Some(Register::R5) }
    else if n == 6 { Some(Register::R6) }
    else if n == 7 { Some(Register::R7) }
    else if n == 8 { Some(Register::R8) }
    else if n == 9 { Some(Register::R9) }
    else if n == 10 { Some(Register::RA) }
    else if n == 11 { Some(Register::RB) }
    else if n == 12 { Some(Register::RC) }
    else if n == 13 { Some(Register::RD) }
    else if n == 14 { Some(Register::RE) }
    else if n == 15 { Some(Register::RF) }
    else { None }
}

/// A register's number is below 16.
pub broadcast proof fn lemma_reg_index_bound(r: Register)
    ensures
        #[trigger] reg_index(r) < 16,
{
    reveal(reg_index);
}

/// Numbering registers and looking them up by number undo each other.
pub proof fn lemma_reg_index_roundtrip(r: Register, n: int)
    ensures
        reg_index(r) < 16,
        reg_from_index(reg_index(r) as int) == Some(r),
        reg_from_index(n) matches Some(q) ==> reg_index(q) == n,
        reg_from_index(n) is Some <==> 0 <= n < 16,
{
    reveal(reg_index);
}

impl Register {
    /// The register's number.
    pub fn as_index(self) -> (i: u8)
        ensures
            i == reg_index(self),
            i < 16,
    {
        reveal(reg_index);
        match self {
            Register::R0 => 0,
            Register::R1 => 1,
            Register::R2 => 2,
            Register::R3 => 3,
            Register::R4 => 4,
            Register::R5 => 5,
            Register::R6 => 6,
            Register::R7 => 7,
            Register::R8 => 8,
            Register::R9 => 9,
            Register::RA => 10,
            Register::RB => 11,
            Register::RC => 12,
            Register::RD => 13,
            Register::RE => 14,
            Register::RF => 15,
        }
    }

    /// The register with number `n`, or `None` when `n` is 16 or more.
    pub fn from_repr(n: u8) -> (r: Option<Register>)
        ensures
            r == reg_from_index(n as int),
    {
        match n {
            0 => Some(Register::R0),
            1 => Some(Register::R1),
            2 => Some(Register::R2),
            3 => Some(Register::R3),
            4 => Some(Register::R4),
            5 => Some(Register::R5),
            6 => Some(Register::R6),
            7 => Some(Register::R7),
            8 => Some(Register::R8),
            9 => Some(Register::R9),
            10 => Some(Register::RA),
            11 => Some(Register::RB),
            12 => Some(Register::RC),
            13 => Some(Register::RD),
            14 => Some(Register::RE),
            15 => Some(Register::RF),
            _ => None,
        }
    }
}

} // verus!
