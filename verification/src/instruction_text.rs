use vstd::prelude::*;

use crate::common::{reg_index, Register};
use crate::machine::spec_test;
use crate::structured_instruction::{CmpjmpOperator, StructuredInstruction};
use crate::text::{dec_str, hex2, hex_digit, push_dec, push_hex2, push_hex_digit, push_str};

verus! {

/// A register's number as one hexadecimal digit.
pub open spec fn rh(r: Register) -> Seq<char> {
    seq![hex_digit(reg_index(r) as int)]
}

/// The symbol that a comparing jump's description uses for its test.
pub open spec fn test_symbol(op: CmpjmpOperator) -> Seq<char> {
    match op {
        CmpjmpOperator::Eq => "="@,
        CmpjmpOperator::Ne => "\u{2260}"@,
        CmpjmpOperator::Ge => "\u{2265}"@,
        CmpjmpOperator::Le => "\u{2264}"@,
        CmpjmpOperator::Gt => ">"@,
        CmpjmpOperator::Lt => "<"@,
    }
}

/// The suffix of a comparing jump's mnemonic.
pub open spec fn test_suffix(op: CmpjmpOperator) -> Seq<char> {
    match op {
        CmpjmpOperator::Eq => "EQ"@,
        CmpjmpOperator::Ne => "NE"@,
        CmpjmpOperator::Ge => "GE"@,
        CmpjmpOperator::Le => "LE"@,
        CmpjmpOperator::Gt => "GT"@,
        CmpjmpOperator::Lt => "LT"@,
    }
}

/// What a comparison symbol in a description asserts of the register it
/// follows (`a`) and `R0` (`b`).
pub open spec fn symbol_asserts(sym: Seq<char>, a: u8, b: u8) -> bool {
    if sym == "="@ || sym == "=="@ {
        a == b
    } else if sym == "\u{2260}"@ {
        a != b
    } else if sym == "\u{2265}"@ {
        a >= b
    } else if sym == "\u{2264}"@ {
        a <= b
    } else if sym == ">"@ {
        a > b
    } else if sym == "<"@ {
        a < b
    } else {
        false
    }
}

/// The description of a comparing jump names the test that the machine
/// applies: it reads "Jump to address in Rt if Rc", a symbol and "R0",
/// and the symbol asserts of Rc and R0 exactly what the jump's test does.
pub proof fn lemma_description_names_the_test(op: CmpjmpOperator, t: Register, c: Register)
    requires
        !(op == CmpjmpOperator::Eq && c == Register::R0),
    ensures
        exists|sym: Seq<char>| {
            &&& spec_describe(StructuredInstruction::JumpWithComparison(op, t, c))
                == "Jump to address in R"@ + rh(t) + " if R"@ + rh(c) + " "@ + sym + " R0"@
            &&& forall|a: u8, b: u8| #[trigger] symbol_asserts(sym, a, b) == spec_test(op, a, b)
        },
{
    let sym = test_symbol(op);
    reveal_strlit("==");
    reveal_strlit("=");
    reveal_strlit("\u{2260}");
    reveal_strlit("\u{2265}");
    reveal_strlit("\u{2264}");
    reveal_strlit(">");
    reveal_strlit("<");
    assert("Jump to address in R"@ + rh(t) + (" if R"@ + rh(c) + " "@ + sym + " R0"@)
        =~= "Jump to address in R"@ + rh(t) + " if R"@ + rh(c) + " "@ + sym + " R0"@);
    assert forall|a: u8, b: u8| #[trigger] symbol_asserts(sym, a, b) == spec_test(op, a, b) by {
        match op {
            CmpjmpOperator::Eq => {},
            CmpjmpOperator::Ne => {
                assert("\u{2260}"@[0] != "="@[0]);
                assert("\u{2260}"@[0] != "=="@[0]);
            },
            CmpjmpOperator::Ge => {
                assert("\u{2265}"@[0] != "="@[0]);
                assert("\u{2265}"@[0] != "=="@[0]);
                assert("\u{2265}"@[0] != "\u{2260}"@[0]);
            },
            CmpjmpOperator::Le => {
                assert("\u{2264}"@[0] != "="@[0]);
                assert("\u{2264}"@[0] != "=="@[0]);
                assert("\u{2264}"@[0] != "\u{2260}"@[0]);
                assert("\u{2264}"@[0] != "\u{2265}"@[0]);
            },
            CmpjmpOperator::Gt => {
                assert(">"@[0] != "="@[0]);
                assert(">"@[0] != "=="@[0]);
                assert(">"@[0] != "\u{2260}"@[0]);
                assert(">"@[0] != "\u{2265}"@[0]);
                assert(">"@[0] != "\u{2264}"@[0]);
            },
            CmpjmpOperator::Lt => {
                assert("<"@[0] != "="@[0]);
                assert("<"@[0] != "=="@[0]);
                assert("<"@[0] != "\u{2260}"@[0]);
                assert("<"@[0] != "\u{2265}"@[0]);
                assert("<"@[0] != "\u{2264}"@[0]);
                assert("<"@[0] != ">"@[0]);
            },
        }
    }
}

/// The description of a jump to a constant address names the test the
/// machine applies to its register: "if Rr", a symbol, "R0", where the
/// symbol asserts that the two are equal.
pub proof fn lemma_constant_jump_description(r: Register, a: u8)
    requires
        r != Register::R0,
    ensures
        exists|sym: Seq<char>| {
            &&& spec_describe(StructuredInstruction::JmpIfEqual(r, a))
                == "Jump to "@ + hex2(a) + " if R"@ + rh(r) + " "@ + sym + " R0"@
            &&& forall|x: u8, y: u8| #[trigger] symbol_asserts(sym, x, y) == (x == y)
        },
{
    let sym = "=="@;
    reveal_strlit("==");
    reveal_strlit("=");
    reveal_strlit("\u{2260}");
    reveal_strlit("\u{2265}");
    reveal_strlit("\u{2264}");
    reveal_strlit(">");
    reveal_strlit("<");
    assert(sym.len() != "="@.len());
    assert(sym[0] != "\u{2260}"@[0]);
    assert(sym[0] != "\u{2265}"@[0]);
    assert(sym[0] != "\u{2264}"@[0]);
    assert(sym[0] != ">"@[0]);
    assert(sym[0] != "<"@[0]);
    reveal_strlit(" == R0");
    reveal_strlit(" R0");
    reveal_strlit(" ");
    assert(" if R"@ + rh(r) + " == R0"@ =~= " if R"@ + rh(r) + " "@ + sym + " R0"@);
    assert("Jump to "@ + hex2(a) + (" if R"@ + rh(r) + " "@ + sym + " R0"@)
        =~= "Jump to "@ + hex2(a) + " if R"@ + rh(r) + " "@ + sym + " R0"@);
}

/// The plain-English description of an instruction.
pub open spec fn spec_describe(i: StructuredInstruction) -> Seq<char> {
    match i {
        StructuredInstruction::Nop => "No operation"@,
        StructuredInstruction::MovMemToReg(addr, r) => "Load R"@ + rh(r) + " from memory cell "@ + hex2(addr),
        StructuredInstruction::MovImmToReg(val, r) => "Load R"@ + rh(r) + " with value "@ + hex2(val),
        StructuredInstruction::MovRegToMem(r, addr) => "Store value of R"@ + rh(r) + " into memory cell "@ + hex2(addr),
        StructuredInstruction::MovRegToReg { src, dst } => "Copy value of R"@ + rh(src) + " into R"@ + rh(dst),
        StructuredInstruction::MovIndirectToReg { dst, src } => "Load R"@ + rh(dst) + " from memory cell pointed to by R"@ + rh(src),
        StructuredInstruction::MovRegToIndirect { src, dst } => "Store value of R"@ + rh(src) + " into memory cell pointed to by R"@ + rh(dst),
        StructuredInstruction::AddRegToRegInteger(d, a, b) => "Put R"@ + rh(a) + " + R"@ + rh(b) + " (ints) into R"@ + rh(d),
        StructuredInstruction::AddRegToRegFloat(d, a, b) => "Put R"@ + rh(a) + " + R"@ + rh(b) + " (floats) into R"@ + rh(d),
        StructuredInstruction::OrRegToReg(d, a, b) => "Put R"@ + rh(a) + " OR R"@ + rh(b) + " into R"@ + rh(d),
        StructuredInstruction::AndRegToReg(d, a, b) => "Put R"@ + rh(a) + " AND R"@ + rh(b) + " into R"@ + rh(d),
        StructuredInstruction::XorRegToReg(d, a, b) => "Put R"@ + rh(a) + " XOR R"@ + rh(b) + " into R"@ + rh(d),
        StructuredInstruction::RotRegRight(r, amount) => "Rotate R"@ + rh(r) + " right by "@ + dec_str(amount as nat),
        StructuredInstruction::JmpIfEqual(r, loc) => "Jump to "@ + hex2(loc) + if r == Register::R0 {
            Seq::empty()
        } else {
            " if R"@ + rh(r) + " == R0"@
        },
        StructuredInstruction::Halt => "Halt execution"@,
        StructuredInstruction::JumpWithComparison(op, loc, c) => "Jump to address in R"@ + rh(loc) + if op == CmpjmpOperator::Eq && c == Register::R0 {
            Seq::empty()
        } else {
            " if R"@ + rh(c) + " "@ + test_symbol(op) + " R0"@
        },
    }
}

/// The assembler-style text of an instruction.
pub open spec fn spec_disasm(i: StructuredInstruction) -> Seq<char> {
    match i {
        StructuredInstruction::Nop => "NOP"@,
        StructuredInstruction::MovMemToReg(addr, r) => "MOV ["@ + hex2(addr) + "] -> R"@ + rh(r),
        StructuredInstruction::MovImmToReg(val, r) => "MOV "@ + hex2(val) + " -> R"@ + rh(r),
        StructuredInstruction::MovRegToMem(r, addr) => "MOV R"@ + rh(r) + " -> ["@ + hex2(addr) + "]"@,
        StructuredInstruction::MovRegToReg { src, dst } => "MOV R"@ + rh(src) + " -> R"@ + rh(dst),
        StructuredInstruction::MovIndirectToReg { dst, src } => "MOV [R"@ + rh(src) + "] -> R"@ + rh(dst),
        StructuredInstruction::MovRegToIndirect { src, dst } => "MOV R"@ + rh(src) + " -> [R"@ + rh(dst) + "]"@,
        StructuredInstruction::AddRegToRegInteger(d, a, b) => "ADDI R"@ + rh(a) + ", R"@ + rh(b) + " -> R"@ + rh(d),
        StructuredInstruction::AddRegToRegFloat(d, a, b) => "ADDF R"@ + rh(a) + ", R"@ + rh(b) + " -> R"@ + rh(d),
        StructuredInstruction::OrRegToReg(d, a, b) => "OR R"@ + rh(a) + ", R"@ + rh(b) + " -> R"@ + rh(d),
        StructuredInstruction::AndRegToReg(d, a, b) => "AND R"@ + rh(a) + ", R"@ + rh(b) + " -> R"@ + rh(d),
        StructuredInstruction::XorRegToReg(d, a, b) => "XOR R"@ + rh(a) + ", R"@ + rh(b) + " -> R"@ + rh(d),
        StructuredInstruction::RotRegRight(r, amount) => "ROT R"@ + rh(r) + ", "@ + hex2(amount),
        StructuredInstruction::JmpIfEqual(r, loc) => if r == Register::R0 {
            "JMP "@ + hex2(loc)
        } else {
            "JMPEQ "@ + hex2(loc) + ", R"@ + rh(r)
        },
        StructuredInstruction::Halt => "HALT"@,
        StructuredInstruction::JumpWithComparison(op, loc, c) => if op == CmpjmpOperator::Eq && c == Register::R0 {
            "JMP R"@ + rh(loc)
        } else {
            "JMP"@ + test_suffix(op) + " R"@ + rh(loc) + ", R"@ + rh(c)
        },
    }
}

fn push_reg(s: &mut String, r: Register)
    ensures
        final(s)@ == old(s)@ + rh(r),
{
    push_hex_digit(s, r.as_index());
    assert(final(s)@ =~= old(s)@ + rh(r));
}

fn push_test_symbol(s: &mut String, op: CmpjmpOperator)
    ensures
        final(s)@ == old(s)@ + test_symbol(op),
{
    match op {
        CmpjmpOperator::Eq => push_str(s, "="),
        CmpjmpOperator::Ne => push_str(s, "\u{2260}"),
        CmpjmpOperator::Ge => push_str(s, "\u{2265}"),
        CmpjmpOperator::Le => push_str(s, "\u{2264}"),
        CmpjmpOperator::Gt => push_str(s, ">"),
        CmpjmpOperator::Lt => push_str(s, "<"),
    }
}

fn push_test_suffix(s: &mut String, op: CmpjmpOperator)
    ensures
        final(s)@ == old(s)@ + test_suffix(op),
{
    match op {
        CmpjmpOperator::Eq => push_str(s, "EQ"),
        CmpjmpOperator::Ne => push_str(s, "NE"),
        CmpjmpOperator::Ge => push_str(s, "GE"),
        CmpjmpOperator::Le => push_str(s, "LE"),
        CmpjmpOperator::Gt => push_str(s, "GT"),
        CmpjmpOperator::Lt => push_str(s, "LT"),
    }
}

fn describe_nop() -> (t: String)
    ensures
        t@ == spec_describe(StructuredInstruction::Nop),
{
    let mut s = String::new();
    push_str(&mut s, "No operation");
    assert(s@ =~= spec_describe(StructuredInstruction::Nop));
    s
}

fn describe_mov_mem_to_reg(addr: u8, r: Register) -> (t: String)
    ensures
        t@ == spec_describe(StructuredInstruction::MovMemToReg(addr, r)),
{
    let mut s = String::new();
    push_str(&mut s, "Load R");
    push_reg(&mut s, r);
    push_str(&mut s, " from memory cell ");
    push_hex2(&mut s, addr);
    assert(s@ =~= spec_describe(StructuredInstruction::MovMemToReg(addr, r)));
    s
}

fn describe_mov_imm_to_reg(val: u8, r: Register) -> (t: String)
    ensures
        t@ == spec_describe(StructuredInstruction::MovImmToReg(val, r)),
{
    let mut s = String::new();
    push_str(&mut s, "Load R");
    push_reg(&mut s, r);
    push_str(&mut s, " with value ");
    push_hex2(&mut s, val);
    assert(s@ =~= spec_describe(StructuredInstruction::MovImmToReg(val, r)));
    s
}

fn describe_mov_reg_to_mem(r: Register, addr: u8) -> (t: String)
    ensures
        t@ == spec_describe(StructuredInstruction::MovRegToMem(r, addr)),
{
    let mut s = String::new();
    push_str(&mut s, "Store value of R");
    push_reg(&mut s, r);
    push_str(&mut s, " into memory cell ");
    push_hex2(&mut s, addr);
    assert(s@ =~= spec_describe(StructuredInstruction::MovRegToMem(r, addr)));
    s
}

fn describe_mov_reg_to_reg(src: Register, dst: Register) -> (t: String)
    ensures
        t@ == spec_describe(StructuredInstruction::MovRegToReg { src, dst }),
{
    let mut s = String::new();
    push_str(&mut s, "Copy value of R");
    push_reg(&mut s, src);
    push_str(&mut s, " into R");
    push_reg(&mut s, dst);
    assert(s@ =~= spec_describe(StructuredInstruction::MovRegToReg { src, dst }));
    s
}

fn describe_mov_indirect_to_reg(dst: Register, src: Register) -> (t: String)
    ensures
        t@ == spec_describe(StructuredInstruction::MovIndirectToReg { dst, src }),
{
    let mut s = String::new();
    push_str(&mut s, "Load R");
    push_reg(&mut s, dst);
    push_str(&mut s, " from memory cell pointed to by R");
    push_reg(&mut s, src);
    assert(s@ =~= spec_describe(StructuredInstruction::MovIndirectToReg { dst, src }));
    s
}

fn describe_mov_reg_to_indirect(src: Register, dst: Register) -> (t: String)
    ensures
        t@ == spec_describe(StructuredInstruction::MovRegToIndirect { src, dst }),
{
    let mut s = String::new();
    push_str(&mut s, "Store value of R");
    push_reg(&mut s, src);
    push_str(&mut s, " into memory cell pointed to by R");
    push_reg(&mut s, dst);
    assert(s@ =~= spec_describe(StructuredInstruction::MovRegToIndirect { src, dst }));
    s
}

fn describe_add_reg_to_reg_integer(d: Register, a: Register, b: Register) -> (t: String)
    ensures
        t@ == spec_describe(StructuredInstruction::AddRegToRegInteger(d, a, b)),
{
    let mut s = String::new();
    push_str(&mut s, "Put R");
    push_reg(&mut s, a);
    push_str(&mut s, " + R");
    push_reg(&mut s, b);
    push_str(&mut s, " (ints) into R");
    push_reg(&mut s, d);
    assert(s@ =~= spec_describe(StructuredInstruction::AddRegToRegInteger(d, a, b)));
    s
}

fn describe_add_reg_to_reg_float(d: Register, a: Register, b: Register) -> (t: String)
    ensures
        t@ == spec_describe(StructuredInstruction::AddRegToRegFloat(d, a, b)),
{
    let mut s = String::new();
    push_str(&mut s, "Put R");
    push_reg(&mut s, a);
    push_str(&mut s, " + R");
    push_reg(&mut s, b);
    push_str(&mut s, " (floats) into R");
    push_reg(&mut s, d);
    assert(s@ =~= spec_describe(StructuredInstruction::AddRegToRegFloat(d, a, b)));
    s
}

fn describe_or_reg_to_reg(d: Register, a: Register, b: Register) -> (t: String)
    ensures
        t@ == spec_describe(StructuredInstruction::OrRegToReg(d, a, b)),
{
    let mut s = String::new();
    push_str(&mut s, "Put R");
    push_reg(&mut s, a);
    push_str(&mut s, " OR R");
    push_reg(&mut s, b);
    push_str(&mut s, " into R");
    push_reg(&mut s, d);
    assert(s@ =~= spec_describe(StructuredInstruction::OrRegToReg(d, a, b)));
    s
}

fn describe_and_reg_to_reg(d: Register, a: Register, b: Register) -> (t: String)
    ensures
        t@ == spec_describe(StructuredInstruction::AndRegToReg(d, a, b)),
{
    let mut s = String::new();
    push_str(&mut s, "Put R");
    push_reg(&mut s, a);
    push_str(&mut s, " AND R");
    push_reg(&mut s, b);
    push_str(&mut s, " into R");
    push_reg(&mut s, d);
    assert(s@ =~= spec_describe(StructuredInstruction::AndRegToReg(d, a, b)));
    s
}

fn describe_xor_reg_to_reg(d: Register, a: Register, b: Register) -> (t: String)
    ensures
        t@ == spec_describe(StructuredInstruction::XorRegToReg(d, a, b)),
{
    let mut s = String::new();
    push_str(&mut s, "Put R");
    push_reg(&mut s, a);
    push_str(&mut s, " XOR R");
    push_reg(&mut s, b);
    push_str(&mut s, " into R");
    push_reg(&mut s, d);
    assert(s@ =~= spec_describe(StructuredInstruction::XorRegToReg(d, a, b)));
    s
}

fn describe_rot_reg_right(r: Register, amount: u8) -> (t: String)
    ensures
        t@ == spec_describe(StructuredInstruction::RotRegRight(r, amount)),
{
    let mut s = String::new();
    push_str(&mut s, "Rotate R");
    push_reg(&mut s, r);
    push_str(&mut s, " right by ");
    push_dec(&mut s, amount as u64);
    assert(s@ =~= spec_describe(StructuredInstruction::RotRegRight(r, amount)));
    s
}

fn describe_jmp_if_equal(r: Register, loc: u8) -> (t: String)
    ensures
        t@ == spec_describe(StructuredInstruction::JmpIfEqual(r, loc)),
{
    let mut s = String::new();
    push_str(&mut s, "Jump to ");
    push_hex2(&mut s, loc);
    if r != Register::R0 {
        push_str(&mut s, " if R");
        push_reg(&mut s, r);
        push_str(&mut s, " == R0");
    }
    assert(s@ =~= spec_describe(StructuredInstruction::JmpIfEqual(r, loc)));
    s
}

fn describe_halt() -> (t: String)
    ensures
        t@ == spec_describe(StructuredInstruction::Halt),
{
    let mut s = String::new();
    push_str(&mut s, "Halt execution");
    assert(s@ =~= spec_describe(StructuredInstruction::Halt));
    s
}

fn describe_jump_with_comparison(op: CmpjmpOperator, loc: Register, c: Register) -> (t: String)
    ensures
        t@ == spec_describe(StructuredInstruction::JumpWithComparison(op, loc, c)),
{
    let mut s = String::new();
    push_str(&mut s, "Jump to address in R");
    push_reg(&mut s, loc);
    if !(op == CmpjmpOperator::Eq && c == Register::R0) {
        push_str(&mut s, " if R");
        push_reg(&mut s, c);
        push_str(&mut s, " ");
        push_test_symbol(&mut s, op);
        push_str(&mut s, " R0");
    }
    assert(s@ =~= spec_describe(StructuredInstruction::JumpWithComparison(op, loc, c)));
    s
}

fn disasm_nop() -> (t: String)
    ensures
        t@ == spec_disasm(StructuredInstruction::Nop),
{
    let mut s = String::new();
    push_str(&mut s, "NOP");
    assert(s@ =~= spec_disasm(StructuredInstruction::Nop));
    s
}

fn disasm_mov_mem_to_reg(addr: u8, r: Register) -> (t: String)
    ensures
        t@ == spec_disasm(StructuredInstruction::MovMemToReg(addr, r)),
{
    let mut s = String::new();
    push_str(&mut s, "MOV [");
    push_hex2(&mut s, addr);
    push_str(&mut s, "] -> R");
    push_reg(&mut s, r);
    assert(s@ =~= spec_disasm(StructuredInstruction::MovMemToReg(addr, r)));
    s
}

fn disasm_mov_imm_to_reg(val: u8, r: Register) -> (t: String)
    ensures
        t@ == spec_disasm(StructuredInstruction::MovImmToReg(val, r)),
{
    let mut s = String::new();
    push_str(&mut s, "MOV ");
    push_hex2(&mut s, val);
    push_str(&mut s, " -> R");
    push_reg(&mut s, r);
    assert(s@ =~= spec_disasm(StructuredInstruction::MovImmToReg(val, r)));
    s
}

fn disasm_mov_reg_to_mem(r: Register, addr: u8) -> (t: String)
    ensures
        t@ == spec_disasm(StructuredInstruction::MovRegToMem(r, addr)),
{
    let mut s = String::new();
    push_str(&mut s, "MOV R");
    push_reg(&mut s, r);
    push_str(&mut s, " -> [");
    push_hex2(&mut s, addr);
    push_str(&mut s, "]");
    assert(s@ =~= spec_disasm(StructuredInstruction::MovRegToMem(r, addr)));
    s
}

fn disasm_mov_reg_to_reg(src: Register, dst: Register) -> (t: String)
    ensures
        t@ == spec_disasm(StructuredInstruction::MovRegToReg { src, dst }),
{
    let mut s = String::new();
    push_str(&mut s, "MOV R");
    push_reg(&mut s, src);
    push_str(&mut s, " -> R");
    push_reg(&mut s, dst);
    assert(s@ =~= spec_disasm(StructuredInstruction::MovRegToReg { src, dst }));
    s
}

fn disasm_mov_indirect_to_reg(dst: Register, src: Register) -> (t: String)
    ensures
        t@ == spec_disasm(StructuredInstruction::MovIndirectToReg { dst, src }),
{
    let mut s = String::new();
    push_str(&mut s, "MOV [R");
    push_reg(&mut s, src);
    push_str(&mut s, "] -> R");
    push_reg(&mut s, dst);
    assert(s@ =~= spec_disasm(StructuredInstruction::MovIndirectToReg { dst, src }));
    s
}

fn disasm_mov_reg_to_indirect(src: Register, dst: Register) -> (t: String)
    ensures
        t@ == spec_disasm(StructuredInstruction::MovRegToIndirect { src, dst }),
{
    let mut s = String::new();
    push_str(&mut s, "MOV R");
    push_reg(&mut s, src);
    push_str(&mut s, " -> [R");
    push_reg(&mut s, dst);
    push_str(&mut s, "]");
    assert(s@ =~= spec_disasm(StructuredInstruction::MovRegToIndirect { src, dst }));
    s
}

fn disasm_add_reg_to_reg_integer(d: Register, a: Register, b: Register) -> (t: String)
    ensures
        t@ == spec_disasm(StructuredInstruction::AddRegToRegInteger(d, a, b)),
{
    let mut s = String::new();
    push_str(&mut s, "ADDI R");
    push_reg(&mut s, a);
    push_str(&mut s, ", R");
    push_reg(&mut s, b);
    push_str(&mut s, " -> R");
    push_reg(&mut s, d);
    assert(s@ =~= spec_disasm(StructuredInstruction::AddRegToRegInteger(d, a, b)));
    s
}

fn disasm_add_reg_to_reg_float(d: Register, a: Register, b: Register) -> (t: String)
    ensures
        t@ == spec_disasm(StructuredInstruction::AddRegToRegFloat(d, a, b)),
{
    let mut s = String::new();
    push_str(&mut s, "ADDF R");
    push_reg(&mut s, a);
    push_str(&mut s, ", R");
    push_reg(&mut s, b);
    push_str(&mut s, " -> R");
    push_reg(&mut s, d);
    assert(s@ =~= spec_disasm(StructuredInstruction::AddRegToRegFloat(d, a, b)));
    s
}

fn disasm_or_reg_to_reg(d: Register, a: Register, b: Register) -> (t: String)
    ensures
        t@ == spec_disasm(StructuredInstruction::OrRegToReg(d, a, b)),
{
    let mut s = String::new();
    push_str(&mut s, "OR R");
    push_reg(&mut s, a);
    push_str(&mut s, ", R");
    push_reg(&mut s, b);
    push_str(&mut s, " -> R");
    push_reg(&mut s, d);
    assert(s@ =~= spec_disasm(StructuredInstruction::OrRegToReg(d, a, b)));
    s
}

fn disasm_and_reg_to_reg(d: Register, a: Register, b: Register) -> (t: String)
    ensures
        t@ == spec_disasm(StructuredInstruction::AndRegToReg(d, a, b)),
{
    let mut s = String::new();
    push_str(&mut s, "AND R");
    push_reg(&mut s, a);
    push_str(&mut s, ", R");
    push_reg(&mut s, b);
    push_str(&mut s, " -> R");
    push_reg(&mut s, d);
    assert(s@ =~= spec_disasm(StructuredInstruction::AndRegToReg(d, a, b)));
    s
}

fn disasm_xor_reg_to_reg(d: Register, a: Register, b: Register) -> (t: String)
    ensures
        t@ == spec_disasm(StructuredInstruction::XorRegToReg(d, a, b)),
{
    let mut s = String::new();
    push_str(&mut s, "XOR R");
    push_reg(&mut s, a);
    push_str(&mut s, ", R");
    push_reg(&mut s, b);
    push_str(&mut s, " -> R");
    push_reg(&mut s, d);
    assert(s@ =~= spec_disasm(StructuredInstruction::XorRegToReg(d, a, b)));
    s
}

fn disasm_rot_reg_right(r: Register, amount: u8) -> (t: String)
    ensures
        t@ == spec_disasm(StructuredInstruction::RotRegRight(r, amount)),
{
    let mut s = String::new();
    push_str(&mut s, "ROT R");
    push_reg(&mut s, r);
    push_str(&mut s, ", ");
    push_hex2(&mut s, amount);
    assert(s@ =~= spec_disasm(StructuredInstruction::RotRegRight(r, amount)));
    s
}

fn disasm_jmp_if_equal(r: Register, loc: u8) -> (t: String)
    ensures
        t@ == spec_disasm(StructuredInstruction::JmpIfEqual(r, loc)),
{
    let mut s = String::new();
    if r == Register::R0 {
        push_str(&mut s, "JMP ");
        push_hex2(&mut s, loc);
    } else {
        push_str(&mut s, "JMPEQ ");
        push_hex2(&mut s, loc);
        push_str(&mut s, ", R");
        push_reg(&mut s, r);
    }
    assert(s@ =~= spec_disasm(StructuredInstruction::JmpIfEqual(r, loc)));
    s
}

fn disasm_halt() -> (t: String)
    ensures
        t@ == spec_disasm(StructuredInstruction::Halt),
{
    let mut s = String::new();
    push_str(&mut s, "HALT");
    assert(s@ =~= spec_disasm(StructuredInstruction::Halt));
    s
}

fn disasm_jump_with_comparison(op: CmpjmpOperator, loc: Register, c: Register) -> (t: String)
    ensures
        t@ == spec_disasm(StructuredInstruction::JumpWithComparison(op, loc, c)),
{
    let mut s = String::new();
    if op == CmpjmpOperator::Eq && c == Register::R0 {
        push_str(&mut s, "JMP R");
        push_reg(&mut s, loc);
    } else {
        push_str(&mut s, "JMP");
        push_test_suffix(&mut s, op);
        push_str(&mut s, " R");
        push_reg(&mut s, loc);
        push_str(&mut s, ", R");
        push_reg(&mut s, c);
    }
    assert(s@ =~= spec_disasm(StructuredInstruction::JumpWithComparison(op, loc, c)));
    s
}

impl StructuredInstruction {
    /// A plain-English description of the instruction.
    pub fn describe(&self) -> (text: String)
        ensures
            text@ == spec_describe(*self),
    {
        match *self {
            StructuredInstruction::Nop => describe_nop(),
            StructuredInstruction::MovMemToReg(addr, r) => describe_mov_mem_to_reg(addr, r),
            StructuredInstruction::MovImmToReg(val, r) => describe_mov_imm_to_reg(val, r),
            StructuredInstruction::MovRegToMem(r, addr) => describe_mov_reg_to_mem(r, addr),
            StructuredInstruction::MovRegToReg { src, dst } => describe_mov_reg_to_reg(src, dst),
            StructuredInstruction::MovIndirectToReg { dst, src } => describe_mov_indirect_to_reg(dst, src),
            StructuredInstruction::MovRegToIndirect { src, dst } => describe_mov_reg_to_indirect(src, dst),
            StructuredInstruction::AddRegToRegInteger(d, a, b) => describe_add_reg_to_reg_integer(d, a, b),
            StructuredInstruction::AddRegToRegFloat(d, a, b) => describe_add_reg_to_reg_float(d, a, b),
            StructuredInstruction::OrRegToReg(d, a, b) => describe_or_reg_to_reg(d, a, b),
            StructuredInstruction::AndRegToReg(d, a, b) => describe_and_reg_to_reg(d, a, b),
            StructuredInstruction::XorRegToReg(d, a, b) => describe_xor_reg_to_reg(d, a, b),
            StructuredInstruction::RotRegRight(r, amount) => describe_rot_reg_right(r, amount),
            StructuredInstruction::JmpIfEqual(r, loc) => describe_jmp_if_equal(r, loc),
            StructuredInstruction::Halt => describe_halt(),
            StructuredInstruction::JumpWithComparison(op, loc, c) => describe_jump_with_comparison(op, loc, c),
        }
    }

    /// The instruction as assembler-style text.
    pub fn disasm(&self) -> (text: String)
        ensures
            text@ == spec_disasm(*self),
    {
        match *self {
            StructuredInstruction::Nop => disasm_nop(),
            StructuredInstruction::MovMemToReg(addr, r) => disasm_mov_mem_to_reg(addr, r),
            StructuredInstruction::MovImmToReg(val, r) => disasm_mov_imm_to_reg(val, r),
            StructuredInstruction::MovRegToMem(r, addr) => disasm_mov_reg_to_mem(r, addr),
            StructuredInstruction::MovRegToReg { src, dst } => disasm_mov_reg_to_reg(src, dst),
            StructuredInstruction::MovIndirectToReg { dst, src } => disasm_mov_indirect_to_reg(dst, src),
            StructuredInstruction::MovRegToIndirect { src, dst } => disasm_mov_reg_to_indirect(src, dst),
            StructuredInstruction::AddRegToRegInteger(d, a, b) => disasm_add_reg_to_reg_integer(d, a, b),
            StructuredInstruction::AddRegToRegFloat(d, a, b) => disasm_add_reg_to_reg_float(d, a, b),
            StructuredInstruction::OrRegToReg(d, a, b) => disasm_or_reg_to_reg(d, a, b),
            StructuredInstruction::AndRegToReg(d, a, b) => disasm_and_reg_to_reg(d, a, b),
            StructuredInstruction::XorRegToReg(d, a, b) => disasm_xor_reg_to_reg(d, a, b),
            StructuredInstruction::RotRegRight(r, amount) => disasm_rot_reg_right(r, amount),
            StructuredInstruction::JmpIfEqual(r, loc) => disasm_jmp_if_equal(r, loc),
            StructuredInstruction::Halt => disasm_halt(),
            StructuredInstruction::JumpWithComparison(op, loc, c) => disasm_jump_with_comparison(op, loc, c),
        }
    }
}

} // verus!
