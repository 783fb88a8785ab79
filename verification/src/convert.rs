use vstd::prelude::*;
use vstd::utf8::is_ascii_chars;

use crate::ast::{span_union, CoreOperand, Instruction, InstructionDetail, Operand, OutputOperand, Spanned};
use crate::common::{reg_index, Register};
use crate::serialize::{
    agrees, err, outcome_agrees, panics, settle, spec_eval, Context, Failure, Fault, MessageView, Outcome,
    SerializationErrorMessage, SerializeResult,
};
use crate::instruction_text::{rh, spec_disasm, test_suffix};
use crate::structured_instruction::{nib, spec_as_bytes, spec_from_bytes, well_formed, CmpjmpOperator, StructuredInstruction};

verus! {

/// What `str::to_uppercase` gives for a string.
pub uninterp spec fn spec_to_uppercase(s: Seq<char>) -> Seq<char>;

/// The upper-case letter for an ASCII lower-case letter; any other
/// character stays as it is.
pub open spec fn ascii_upper_char(c: char) -> char {
    if 'a' <= c <= 'z' {
        (((c as u32) - 32) as u32) as char
    } else {
        c
    }
}

/// A text of ASCII characters in upper case, character by character.
pub open spec fn ascii_upper(s: Seq<char>) -> Seq<char> {
    s.map_values(|c: char| ascii_upper_char(c))
}

/// A text in upper case: for ASCII text each lower-case letter becomes its
/// capital; other text as `str::to_uppercase` gives it.
pub open spec fn upper_text(s: Seq<char>) -> Seq<char> {
    if is_ascii_chars(s) {
        ascii_upper(s)
    } else {
        spec_to_uppercase(s)
    }
}

/// The string in upper case (`str::to_uppercase`), which maps each character
/// to its Unicode upper case. The result depends on the characters of the
/// argument alone; for ASCII text each of `a` to `z` becomes `A` to `Z` and
/// every other character is kept, so the length stays the same. What it
/// gives for other characters is left to the name `spec_to_uppercase`.
#[verifier::external_body]
pub(crate) fn to_uppercase(s: &str) -> (r: String)
    ensures
        r@ == spec_to_uppercase(s@),
        is_ascii_chars(s@) ==> r@ == ascii_upper(s@),
{
    s.to_uppercase()
}

/// Whether two string slices hold the same characters, as `==` on `str`
/// tells.
pub(crate) fn str_eq(a: &str, b: &str) -> (r: bool)
    ensures
        r == (a@ == b@),
{
    let n = a.unicode_len();
    if n != b.unicode_len() {
        return false;
    }
    let mut k: usize = 0;
    while k < n
        invariant
            n == a@.len(),
            n == b@.len(),
            k <= n,
            forall|i: int| 0 <= i < k ==> a@[i] == b@[i],
        decreases n - k,
    {
        if a.get_char(k) != b.get_char(k) {
            return false;
        }
        k = k + 1;
    }
    assert(a@ =~= b@);
    true
}

/// A mnemonic names the instruction `name`, in any case.
pub open spec fn is_mnemonic(m: Seq<char>, name: &str) -> bool {
    upper_text(m) == name@
}

/// The error for a statement with `n` operands expected.
pub open spec fn operand_count_fault(detail: Spanned<InstructionDetail>, n: nat) -> Option<Fault> {
    let ops = detail.inner.operands@;
    if ops.len() == n {
        None
    } else {
        Some(err(
            MessageView::UnexpectedOperandCount { expected: n, found: ops.len() },
            if ops.len() > 0 { span_union(ops[0].span, ops.last().span) } else { detail.span },
        ))
    }
}

/// The error for a statement that takes no operand after `->`.
pub open spec fn destination_fault(detail: Spanned<InstructionDetail>) -> Option<Fault> {
    match detail.inner.output {
        Some(o) => Some(err(MessageView::UnexpectedDestinationOperand, o.span)),
        None => None,
    }
}

/// The error for a statement that needs an operand after `->` and has none.
pub open spec fn missing_destination_fault(detail: Spanned<InstructionDetail>) -> Option<Fault> {
    match detail.inner.output {
        Some(o) => None,
        None => Some(err(MessageView::MissingDestinationOperand, detail.span)),
    }
}

/// An operand is a register not in brackets.
pub open spec fn direct_register(o: Operand) -> Option<Register> {
    match o {
        Operand { deref: false, core: CoreOperand::Register(r) } => Some(r.inner),
        _ => None,
    }
}

/// Checks that a statement has exactly `expected` operands.
pub fn assert_operands(detail: &Spanned<InstructionDetail>, expected: usize) -> (r: SerializeResult<()>)
    ensures
        r is Ok <==> operand_count_fault(*detail, expected as nat) is None,
        r matches Err(e) ==> operand_count_fault(*detail, expected as nat) == Some(Fault::Error(e@)),
{
    let found = detail.inner.operands.len();
    if found == expected {
        return Ok(());
    }
    let span = if found > 0 {
        detail.inner.operands[0].span.union(detail.inner.operands[found - 1].span)
    } else {
        detail.span
    };
    Err(SerializationErrorMessage::UnexpectedOperandCount { expected, found }.with_span(span))
}

/// Checks that a statement has no operand after `->`.
pub fn assert_no_destination_operand(detail: &Spanned<InstructionDetail>) -> (r: SerializeResult<()>)
    ensures
        r is Ok <==> destination_fault(*detail) is None,
        r matches Err(e) ==> destination_fault(*detail) == Some(Fault::Error(e@)),
{
    match &detail.inner.output {
        Some(output) => Err(SerializationErrorMessage::UnexpectedDestinationOperand.with_span(output.span)),
        None => Ok(()),
    }
}

/// The operand after `->`, which the statement needs.
pub fn assert_destination_operand(detail: &Spanned<InstructionDetail>) -> (r: SerializeResult<&Spanned<OutputOperand>>)
    ensures
        r is Ok <==> missing_destination_fault(*detail) is None,
        r matches Ok(o) ==> detail.inner.output == Some(*o),
        r matches Err(e) ==> missing_destination_fault(*detail) == Some(Fault::Error(e@)),
{
    match &detail.inner.output {
        Some(output) => Ok(output),
        None => Err(SerializationErrorMessage::MissingDestinationOperand.with_span(detail.span)),
    }
}

/// An operand combination that MOV does not support.
pub open spec fn combination_fault(msg: &str, src: Spanned<Operand>, dst: Spanned<OutputOperand>) -> Result<StructuredInstruction, Fault> {
    Err(err(MessageView::InvalidOperandCombination(msg@), span_union(src.span, dst.span)))
}

/// An operand that a statement does not accept.
pub open spec fn operand_fault<T>(msg: &str, o: Spanned<T>) -> Fault {
    err(MessageView::InvalidOperand(msg@), o.span)
}

/// MOV: the source and destination operands select one of six encodings.
pub open spec fn spec_convert_mov(c: Seq<(Seq<char>, u8)>, detail: Spanned<InstructionDetail>) -> Result<StructuredInstruction, Fault> {
    if let Some(f) = operand_count_fault(detail, 1) {
        Err(f)
    } else if let Some(f) = missing_destination_fault(detail) {
        Err(f)
    } else {
        let src = detail.inner.operands@[0];
        let dst = detail.inner.output.unwrap();
        match (src.inner.deref, src.inner.core, dst.inner) {
            (true, CoreOperand::Constant(e), OutputOperand::Register(r)) => match spec_eval(c, e) {
                Ok(v) => Ok(StructuredInstruction::MovMemToReg(v, r.inner)),
                Err(f) => Err(f),
            },
            (false, CoreOperand::Constant(e), OutputOperand::Register(r)) => match spec_eval(c, e) {
                Ok(v) => Ok(StructuredInstruction::MovImmToReg(v, r.inner)),
                Err(f) => Err(f),
            },
            (false, CoreOperand::Register(r), OutputOperand::ConstantDeref(a)) => match spec_eval(c, a) {
                Ok(v) => Ok(StructuredInstruction::MovRegToMem(r.inner, v)),
                Err(f) => Err(f),
            },
            (false, CoreOperand::Register(s), OutputOperand::Register(d)) =>
                Ok(StructuredInstruction::MovRegToReg { src: s.inner, dst: d.inner }),
            (true, CoreOperand::Register(s), OutputOperand::Register(d)) =>
                Ok(StructuredInstruction::MovIndirectToReg { dst: d.inner, src: s.inner }),
            (false, CoreOperand::Register(s), OutputOperand::RegisterDeref(d)) =>
                Ok(StructuredInstruction::MovRegToIndirect { src: s.inner, dst: d.inner }),
            (true, CoreOperand::Register(_), OutputOperand::RegisterDeref(_)) =>
                combination_fault("MOV [Rr] -> [Rr] is not supported.", src, dst),
            (false, CoreOperand::Constant(_), OutputOperand::RegisterDeref(_)) =>
                combination_fault("MOV xy -> [Rr] is not supported.", src, dst),
            (true, CoreOperand::Constant(_), OutputOperand::RegisterDeref(_)) =>
                combination_fault("MOV [xy] -> [Rr] is not supported.", src, dst),
            (true, CoreOperand::Constant(_), OutputOperand::ConstantDeref(_)) =>
                combination_fault("MOV [xy] -> [xy] is not supported.", src, dst),
            (false, CoreOperand::Constant(_), OutputOperand::ConstantDeref(_)) =>
                combination_fault("MOV xy -> [xy] is not supported.", src, dst),
            (true, CoreOperand::Register(_), OutputOperand::ConstantDeref(_)) =>
                combination_fault("MOV [Rr] -> [xy] is not supported.", src, dst),
        }
    }
}

/// An instruction without operands: HALT or NOP.
pub open spec fn spec_convert_nullary(detail: Spanned<InstructionDetail>, i: StructuredInstruction) -> Result<StructuredInstruction, Fault> {
    if let Some(f) = operand_count_fault(detail, 0) {
        Err(f)
    } else if let Some(f) = destination_fault(detail) {
        Err(f)
    } else {
        Ok(i)
    }
}

/// The three-register instructions, by opcode.
pub open spec fn three_register(opcode: u8, d: Register, a: Register, b: Register) -> StructuredInstruction {
    if opcode == 0x50 {
        StructuredInstruction::AddRegToRegInteger(d, a, b)
    } else if opcode == 0x60 {
        StructuredInstruction::AddRegToRegFloat(d, a, b)
    } else if opcode == 0x70 {
        StructuredInstruction::OrRegToReg(d, a, b)
    } else if opcode == 0x80 {
        StructuredInstruction::AndRegToReg(d, a, b)
    } else {
        StructuredInstruction::XorRegToReg(d, a, b)
    }
}

/// ADDI, ADDF, OR, AND, XOR: two source registers (brackets are not looked
/// at) and a destination register.
pub open spec fn spec_convert_2regin_1regout(detail: Spanned<InstructionDetail>, opcode: u8) -> Result<StructuredInstruction, Fault> {
    if let Some(f) = operand_count_fault(detail, 2) {
        Err(f)
    } else if let Some(f) = missing_destination_fault(detail) {
        Err(f)
    } else {
        let src1 = detail.inner.operands@[0];
        let src2 = detail.inner.operands@[1];
        let dst = detail.inner.output.unwrap();
        match src1.inner.core {
            CoreOperand::Register(a) => match src2.inner.core {
                CoreOperand::Register(b) => match dst.inner {
                    OutputOperand::Register(d) => Ok(three_register(opcode, d.inner, a.inner, b.inner)),
                    _ => Err(operand_fault("Destination operand must be a register", dst)),
                },
                _ => Err(operand_fault("Second source operand must be a register", src2)),
            },
            _ => Err(operand_fault("Source operands must be registers", src1)),
        }
    }
}

/// ROT: a register and a constant amount, taken modulo 16.
pub open spec fn spec_convert_rot(c: Seq<(Seq<char>, u8)>, detail: Spanned<InstructionDetail>) -> Result<StructuredInstruction, Fault> {
    if let Some(f) = operand_count_fault(detail, 2) {
        Err(f)
    } else if let Some(f) = destination_fault(detail) {
        Err(f)
    } else {
        let target = detail.inner.operands@[0];
        let amount = detail.inner.operands@[1];
        match target.inner.core {
            CoreOperand::Register(r) => match amount.inner.core {
                CoreOperand::Constant(e) => match spec_eval(c, e) {
                    Ok(v) => Ok(StructuredInstruction::RotRegRight(r.inner, v % 16)),
                    Err(f) => Err(f),
                },
                _ => Err(operand_fault("Amount operand of ROT must be an immediate constant expression", amount)),
            },
            _ => Err(operand_fault("Target of ROT must be a register", target)),
        }
    }
}

/// A jump to a constant address or to the address in a register, when the
/// comparison register equals `R0`.
pub open spec fn spec_jmpeq(c: Seq<(Seq<char>, u8)>, target: Spanned<Operand>, comparison: Register) -> Result<StructuredInstruction, Fault> {
    match target.inner {
        Operand { deref: false, core: CoreOperand::Constant(e) } => match spec_eval(c, e) {
            Ok(a) => Ok(StructuredInstruction::JmpIfEqual(comparison, a)),
            Err(f) => Err(f),
        },
        Operand { deref: false, core: CoreOperand::Register(r) } =>
            Ok(StructuredInstruction::JumpWithComparison(CmpjmpOperator::Eq, r.inner, comparison)),
        _ => Err(operand_fault("Jump location of JMPEQ must be either a direct register or an immediate constant", target)),
    }
}

/// JMP: a jump whose comparison register is `R0`, so it is always taken.
pub open spec fn spec_convert_jmp(c: Seq<(Seq<char>, u8)>, detail: Spanned<InstructionDetail>) -> Result<StructuredInstruction, Fault> {
    if let Some(f) = operand_count_fault(detail, 1) {
        Err(f)
    } else if let Some(f) = destination_fault(detail) {
        Err(f)
    } else {
        spec_jmpeq(c, detail.inner.operands@[0], Register::R0)
    }
}

/// JMPEQ: the target, then the comparison register.
pub open spec fn spec_convert_jmpeq(c: Seq<(Seq<char>, u8)>, detail: Spanned<InstructionDetail>) -> Result<StructuredInstruction, Fault> {
    if let Some(f) = operand_count_fault(detail, 2) {
        Err(f)
    } else if let Some(f) = destination_fault(detail) {
        Err(f)
    } else {
        let comparison_op = detail.inner.operands@[1];
        match direct_register(comparison_op.inner) {
            Some(r) => spec_jmpeq(c, detail.inner.operands@[0], r),
            None => Err(operand_fault("Comparison operand of JMPEQ must be a direct register", comparison_op)),
        }
    }
}

/// JMPNE, JMPGE, JMPLE, JMPGT, JMPLT: a target register, then the comparison register.
pub open spec fn spec_convert_test_jump(detail: Spanned<InstructionDetail>, op: CmpjmpOperator) -> Result<StructuredInstruction, Fault> {
    if let Some(f) = operand_count_fault(detail, 2) {
        Err(f)
    } else if let Some(f) = destination_fault(detail) {
        Err(f)
    } else {
        let target = detail.inner.operands@[0];
        let comparison = detail.inner.operands@[1];
        match direct_register(target.inner) {
            Some(t) => match direct_register(comparison.inner) {
                Some(r) => Ok(StructuredInstruction::JumpWithComparison(op, t, r)),
                None => Err(operand_fault("Comparison operand must be a direct register", comparison)),
            },
            None => Err(operand_fault("Jump location must be a direct register, except for JMP and JMPEQ which allow an immediate location", target)),
        }
    }
}

/// A statement as a machine instruction, chosen by its mnemonic in any case.
pub open spec fn spec_from_ast(c: Seq<(Seq<char>, u8)>, instr: Spanned<Instruction>) -> Result<StructuredInstruction, Fault> {
    let m = instr.inner.mnemonic.inner@;
    let d = instr.inner.detail;
    if is_mnemonic(m, "MOV") { spec_convert_mov(c, d) }
    else if is_mnemonic(m, "HALT") { spec_convert_nullary(d, StructuredInstruction::Halt) }
    else if is_mnemonic(m, "NOP") { spec_convert_nullary(d, StructuredInstruction::Nop) }
    else if is_mnemonic(m, "ADDI") { spec_convert_2regin_1regout(d, 0x50) }
    else if is_mnemonic(m, "ADDF") { spec_convert_2regin_1regout(d, 0x60) }
    else if is_mnemonic(m, "OR") { spec_convert_2regin_1regout(d, 0x70) }
    else if is_mnemonic(m, "AND") { spec_convert_2regin_1regout(d, 0x80) }
    else if is_mnemonic(m, "XOR") { spec_convert_2regin_1regout(d, 0x90) }
    else if is_mnemonic(m, "ROT") { spec_convert_rot(c, d) }
    else if is_mnemonic(m, "JMP") { spec_convert_jmp(c, d) }
    else if is_mnemonic(m, "JMPEQ") { spec_convert_jmpeq(c, d) }
    else if is_mnemonic(m, "JMPNE") { spec_convert_test_jump(d, CmpjmpOperator::Ne) }
    else if is_mnemonic(m, "JMPGE") { spec_convert_test_jump(d, CmpjmpOperator::Ge) }
    else if is_mnemonic(m, "JMPLE") { spec_convert_test_jump(d, CmpjmpOperator::Le) }
    else if is_mnemonic(m, "JMPGT") { spec_convert_test_jump(d, CmpjmpOperator::Gt) }
    else if is_mnemonic(m, "JMPLT") { spec_convert_test_jump(d, CmpjmpOperator::Lt) }
    else { Err(err(MessageView::UnknownMnemonic(m), instr.inner.mnemonic.span)) }
}

/// The byte of a DATA operand: no operand after `->`, and a constant expression.
pub open spec fn spec_data_byte(c: Seq<(Seq<char>, u8)>, detail: Spanned<InstructionDetail>, arg: Spanned<Operand>) -> Result<u8, Fault> {
    if let Some(f) = destination_fault(detail) {
        Err(f)
    } else {
        match arg.inner.core {
            CoreOperand::Constant(e) => spec_eval(c, e),
            _ => Err(operand_fault("Operand of DATA must be an immediate constant expression", arg)),
        }
    }
}

/// A statement as a machine instruction or a data byte. A CONST statement
/// panics: it has no bytes.
pub open spec fn spec_convert_instruction(c: Seq<(Seq<char>, u8)>, instr: Spanned<Instruction>) -> Result<ConvertedInstruction, Fault> {
    let m = instr.inner.mnemonic.inner@;
    let d = instr.inner.detail;
    if is_mnemonic(m, "CONST") {
        Err(Fault::Panic)
    } else if is_mnemonic(m, "DATA") {
        if let Some(f) = operand_count_fault(d, 1) {
            Err(f)
        } else {
            match spec_data_byte(c, d, d.inner.operands@[0]) {
                Ok(b) => Ok(ConvertedInstruction::Data(b)),
                Err(f) => Err(f),
            }
        }
    } else {
        match spec_from_ast(c, instr) {
            Ok(i) => Ok(ConvertedInstruction::Code(i)),
            Err(f) => Err(f),
        }
    }
}

/// What a statement assembles to.
#[derive(Debug, Clone, Copy, PartialEq, Eq, Structural)]
pub enum ConvertedInstruction {
    Code(StructuredInstruction),
    Data(u8),
}

fn operand_error(msg: &str, span: crate::ast::Span) -> (e: crate::serialize::SerializationError)
    ensures
        Fault::Error(e@) == err(MessageView::InvalidOperand(msg@), span),
{
    SerializationErrorMessage::InvalidOperand(msg.to_owned()).with_span(span)
}

fn combination_error(msg: &str, src: &Spanned<Operand>, dst: &Spanned<OutputOperand>) -> (r: Outcome<StructuredInstruction>)
    ensures
        outcome_agrees(r, combination_fault(msg, *src, *dst)),
{
    Err(Failure::Error(SerializationErrorMessage::InvalidOperandCombination(msg.to_owned()).with_span(src.span.union(dst.span))))
}

fn convert_mov(detail: &Spanned<InstructionDetail>, ctx: &Context) -> (r: Outcome<StructuredInstruction>)
    ensures
        outcome_agrees(r, spec_convert_mov(ctx.spec_constants(), *detail)),
{
    if let Err(e) = assert_operands(detail, 1) {
        return Err(Failure::Error(e));
    }
    let dst = match assert_destination_operand(detail) {
        Ok(d) => d,
        Err(e) => return Err(Failure::Error(e)),
    };
    let src = &detail.inner.operands[0];
    match &src.inner.core {
        CoreOperand::Constant(expr) => match &dst.inner {
            OutputOperand::Register(r) => {
                let v = match ctx.eval(expr) {
                    Ok(v) => v,
                    Err(e) => return Err(e),
                };
                if src.inner.deref {
                    Ok(StructuredInstruction::MovMemToReg(v, r.inner))
                } else {
                    Ok(StructuredInstruction::MovImmToReg(v, r.inner))
                }
            },
            OutputOperand::RegisterDeref(_) => if src.inner.deref {
                combination_error("MOV [xy] -> [Rr] is not supported.", src, dst)
            } else {
                combination_error("MOV xy -> [Rr] is not supported.", src, dst)
            },
            OutputOperand::ConstantDeref(_) => if src.inner.deref {
                combination_error("MOV [xy] -> [xy] is not supported.", src, dst)
            } else {
                combination_error("MOV xy -> [xy] is not supported.", src, dst)
            },
        },
        CoreOperand::Register(s) => match &dst.inner {
            OutputOperand::ConstantDeref(addr) => if src.inner.deref {
                combination_error("MOV [Rr] -> [xy] is not supported.", src, dst)
            } else {
                let v = match ctx.eval(addr) {
                    Ok(v) => v,
                    Err(e) => return Err(e),
                };
                Ok(StructuredInstruction::MovRegToMem(s.inner, v))
            },
            OutputOperand::Register(d) => if src.inner.deref {
                Ok(StructuredInstruction::MovIndirectToReg { dst: d.inner, src: s.inner })
            } else {
                Ok(StructuredInstruction::MovRegToReg { src: s.inner, dst: d.inner })
            },
            OutputOperand::RegisterDeref(d) => if src.inner.deref {
                combination_error("MOV [Rr] -> [Rr] is not supported.", src, dst)
            } else {
                Ok(StructuredInstruction::MovRegToIndirect { src: s.inner, dst: d.inner })
            },
        },
    }
}

fn convert_halt(detail: &Spanned<InstructionDetail>, _ctx: &Context) -> (r: Outcome<StructuredInstruction>)
    ensures
        outcome_agrees(r, spec_convert_nullary(*detail, StructuredInstruction::Halt)),
{
    if let Err(e) = assert_operands(detail, 0) {
        return Err(Failure::Error(e));
    }
    if let Err(e) = assert_no_destination_operand(detail) {
        return Err(Failure::Error(e));
    }
    Ok(StructuredInstruction::Halt)
}

fn convert_nop(detail: &Spanned<InstructionDetail>, _ctx: &Context) -> (r: Outcome<StructuredInstruction>)
    ensures
        outcome_agrees(r, spec_convert_nullary(*detail, StructuredInstruction::Nop)),
{
    if let Err(e) = assert_operands(detail, 0) {
        return Err(Failure::Error(e));
    }
    if let Err(e) = assert_no_destination_operand(detail) {
        return Err(Failure::Error(e));
    }
    Ok(StructuredInstruction::Nop)
}

fn convert_2regin_1regout(detail: &Spanned<InstructionDetail>, _ctx: &Context, opcode: u8) -> (r: Outcome<StructuredInstruction>)
    requires
        opcode == 0x50 || opcode == 0x60 || opcode == 0x70 || opcode == 0x80 || opcode == 0x90,
    ensures
        outcome_agrees(r, spec_convert_2regin_1regout(*detail, opcode)),
{
    if let Err(e) = assert_operands(detail, 2) {
        return Err(Failure::Error(e));
    }
    let dst = match assert_destination_operand(detail) {
        Ok(d) => d,
        Err(e) => return Err(Failure::Error(e)),
    };
    let src1 = &detail.inner.operands[0];
    let src2 = &detail.inner.operands[1];
    let a = match &src1.inner.core {
        CoreOperand::Register(r) => r.inner,
        _ => return Err(Failure::Error(operand_error("Source operands must be registers", src1.span))),
    };
    let b = match &src2.inner.core {
        CoreOperand::Register(r) => r.inner,
        _ => return Err(Failure::Error(operand_error("Second source operand must be a register", src2.span))),
    };
    let d = match &dst.inner {
        OutputOperand::Register(r) => r.inner,
        _ => return Err(Failure::Error(operand_error("Destination operand must be a register", dst.span))),
    };
    Ok(if opcode == 0x50 {
        StructuredInstruction::AddRegToRegInteger(d, a, b)
    } else if opcode == 0x60 {
        StructuredInstruction::AddRegToRegFloat(d, a, b)
    } else if opcode == 0x70 {
        StructuredInstruction::OrRegToReg(d, a, b)
    } else if opcode == 0x80 {
        StructuredInstruction::AndRegToReg(d, a, b)
    } else {
        StructuredInstruction::XorRegToReg(d, a, b)
    })
}

fn convert_addi(detail: &Spanned<InstructionDetail>, ctx: &Context) -> (r: Outcome<StructuredInstruction>)
    ensures
        outcome_agrees(r, spec_convert_2regin_1regout(*detail, 0x50)),
{
    convert_2regin_1regout(detail, ctx, 0x50)
}

fn convert_addf(detail: &Spanned<InstructionDetail>, ctx: &Context) -> (r: Outcome<StructuredInstruction>)
    ensures
        outcome_agrees(r, spec_convert_2regin_1regout(*detail, 0x60)),
{
    convert_2regin_1regout(detail, ctx, 0x60)
}

fn convert_or(detail: &Spanned<InstructionDetail>, ctx: &Context) -> (r: Outcome<StructuredInstruction>)
    ensures
        outcome_agrees(r, spec_convert_2regin_1regout(*detail, 0x70)),
{
    convert_2regin_1regout(detail, ctx, 0x70)
}

fn convert_and(detail: &Spanned<InstructionDetail>, ctx: &Context) -> (r: Outcome<StructuredInstruction>)
    ensures
        outcome_agrees(r, spec_convert_2regin_1regout(*detail, 0x80)),
{
    convert_2regin_1regout(detail, ctx, 0x80)
}

fn convert_xor(detail: &Spanned<InstructionDetail>, ctx: &Context) -> (r: Outcome<StructuredInstruction>)
    ensures
        outcome_agrees(r, spec_convert_2regin_1regout(*detail, 0x90)),
{
    convert_2regin_1regout(detail, ctx, 0x90)
}

fn convert_rot(detail: &Spanned<InstructionDetail>, ctx: &Context) -> (r: Outcome<StructuredInstruction>)
    ensures
        outcome_agrees(r, spec_convert_rot(ctx.spec_constants(), *detail)),
{
    if let Err(e) = assert_operands(detail, 2) {
        return Err(Failure::Error(e));
    }
    if let Err(e) = assert_no_destination_operand(detail) {
        return Err(Failure::Error(e));
    }
    let target = &detail.inner.operands[0];
    let amount = &detail.inner.operands[1];
    let target_reg = match &target.inner.core {
        CoreOperand::Register(r) => r.inner,
        _ => return Err(Failure::Error(operand_error("Target of ROT must be a register", target.span))),
    };
    let amount_constant = match &amount.inner.core {
        CoreOperand::Constant(expr) => match ctx.eval(expr) {
            Ok(v) => v % 16,
            Err(e) => return Err(e),
        },
        _ => return Err(Failure::Error(operand_error("Amount operand of ROT must be an immediate constant expression", amount.span))),
    };
    Ok(StructuredInstruction::RotRegRight(target_reg, amount_constant))
}

/// A jump to the address in register `target` when `comparison_operand`
/// passes the test against `R0`.
pub fn cmpjmp(target: Register, comparison_operand: Register, operator: CmpjmpOperator) -> (r: SerializeResult<StructuredInstruction>)
    ensures
        r matches Ok(i) && i == StructuredInstruction::JumpWithComparison(operator, target, comparison_operand),
{
    Ok(StructuredInstruction::JumpWithComparison(operator, target, comparison_operand))
}

fn jmpeq(target: &Spanned<Operand>, comparison_operand: Register, ctx: &Context) -> (r: Outcome<StructuredInstruction>)
    ensures
        outcome_agrees(r, spec_jmpeq(ctx.spec_constants(), *target, comparison_operand)),
{
    if !target.inner.deref {
        match &target.inner.core {
            CoreOperand::Constant(expr) => {
                let addr = match ctx.eval(expr) {
                    Ok(v) => v,
                    Err(e) => return Err(e),
                };
                return Ok(StructuredInstruction::JmpIfEqual(comparison_operand, addr));
            },
            CoreOperand::Register(r) => {
                return match cmpjmp(r.inner, comparison_operand, CmpjmpOperator::Eq) {
                    Ok(i) => Ok(i),
                    Err(e) => Err(Failure::Error(e)),
                };
            },
        }
    }
    Err(Failure::Error(operand_error("Jump location of JMPEQ must be either a direct register or an immediate constant", target.span)))
}

fn direct_reg(o: &Spanned<Operand>) -> (r: Option<Register>)
    ensures
        r == direct_register(o.inner),
{
    if o.inner.deref {
        return None;
    }
    match &o.inner.core {
        CoreOperand::Register(r) => Some(r.inner),
        _ => None,
    }
}

fn convert_jmp(detail: &Spanned<InstructionDetail>, ctx: &Context) -> (r: Outcome<StructuredInstruction>)
    ensures
        outcome_agrees(r, spec_convert_jmp(ctx.spec_constants(), *detail)),
{
    if let Err(e) = assert_operands(detail, 1) {
        return Err(Failure::Error(e));
    }
    if let Err(e) = assert_no_destination_operand(detail) {
        return Err(Failure::Error(e));
    }
    jmpeq(&detail.inner.operands[0], Register::R0, ctx)
}

fn convert_jmpeq(detail: &Spanned<InstructionDetail>, ctx: &Context) -> (r: Outcome<StructuredInstruction>)
    ensures
        outcome_agrees(r, spec_convert_jmpeq(ctx.spec_constants(), *detail)),
{
    if let Err(e) = assert_operands(detail, 2) {
        return Err(Failure::Error(e));
    }
    if let Err(e) = assert_no_destination_operand(detail) {
        return Err(Failure::Error(e));
    }
    let comparison_operand = &detail.inner.operands[1];
    let reg = match direct_reg(comparison_operand) {
        Some(r) => r,
        None => return Err(Failure::Error(operand_error("Comparison operand of JMPEQ must be a direct register", comparison_operand.span))),
    };
    jmpeq(&detail.inner.operands[0], reg, ctx)
}

fn convert_test_jump(detail: &Spanned<InstructionDetail>, _ctx: &Context, operator: CmpjmpOperator) -> (r: Outcome<StructuredInstruction>)
    ensures
        outcome_agrees(r, spec_convert_test_jump(*detail, operator)),
{
    if let Err(e) = assert_operands(detail, 2) {
        return Err(Failure::Error(e));
    }
    if let Err(e) = assert_no_destination_operand(detail) {
        return Err(Failure::Error(e));
    }
    let jmp_location = &detail.inner.operands[0];
    let comparison_operand = &detail.inner.operands[1];
    let t = match direct_reg(jmp_location) {
        Some(r) => r,
        None => return Err(Failure::Error(operand_error(
            "Jump location must be a direct register, except for JMP and JMPEQ which allow an immediate location",
            jmp_location.span,
        ))),
    };
    let c = match direct_reg(comparison_operand) {
        Some(r) => r,
        None => return Err(Failure::Error(operand_error("Comparison operand must be a direct register", comparison_operand.span))),
    };
    match cmpjmp(t, c, operator) {
        Ok(i) => Ok(i),
        Err(e) => Err(Failure::Error(e)),
    }
}

fn convert_jmpne(detail: &Spanned<InstructionDetail>, ctx: &Context) -> (r: Outcome<StructuredInstruction>)
    ensures
        outcome_agrees(r, spec_convert_test_jump(*detail, CmpjmpOperator::Ne)),
{
    convert_test_jump(detail, ctx, CmpjmpOperator::Ne)
}

fn convert_jmpge(detail: &Spanned<InstructionDetail>, ctx: &Context) -> (r: Outcome<StructuredInstruction>)
    ensures
        outcome_agrees(r, spec_convert_test_jump(*detail, CmpjmpOperator::Ge)),
{
    convert_test_jump(detail, ctx, CmpjmpOperator::Ge)
}

fn convert_jmple(detail: &Spanned<InstructionDetail>, ctx: &Context) -> (r: Outcome<StructuredInstruction>)
    ensures
        outcome_agrees(r, spec_convert_test_jump(*detail, CmpjmpOperator::Le)),
{
    convert_test_jump(detail, ctx, CmpjmpOperator::Le)
}

fn convert_jmpgt(detail: &Spanned<InstructionDetail>, ctx: &Context) -> (r: Outcome<StructuredInstruction>)
    ensures
        outcome_agrees(r, spec_convert_test_jump(*detail, CmpjmpOperator::Gt)),
{
    convert_test_jump(detail, ctx, CmpjmpOperator::Gt)
}

fn convert_jmplt(detail: &Spanned<InstructionDetail>, ctx: &Context) -> (r: Outcome<StructuredInstruction>)
    ensures
        outcome_agrees(r, spec_convert_test_jump(*detail, CmpjmpOperator::Lt)),
{
    convert_test_jump(detail, ctx, CmpjmpOperator::Lt)
}

fn from_ast_outcome(instr: &Spanned<Instruction>, ctx: &Context) -> (r: Outcome<StructuredInstruction>)
    ensures
        outcome_agrees(r, spec_from_ast(ctx.spec_constants(), *instr)),
{
    let upper = to_uppercase(instr.inner.mnemonic.inner.as_str());
    let m = upper.as_str();
    let d = &instr.inner.detail;
    if str_eq(m, "MOV") { convert_mov(d, ctx) }
    else if str_eq(m, "HALT") { convert_halt(d, ctx) }
    else if str_eq(m, "NOP") { convert_nop(d, ctx) }
    else if str_eq(m, "ADDI") { convert_addi(d, ctx) }
    else if str_eq(m, "ADDF") { convert_addf(d, ctx) }
    else if str_eq(m, "OR") { convert_or(d, ctx) }
    else if str_eq(m, "AND") { convert_and(d, ctx) }
    else if str_eq(m, "XOR") { convert_xor(d, ctx) }
    else if str_eq(m, "ROT") { convert_rot(d, ctx) }
    else if str_eq(m, "JMP") { convert_jmp(d, ctx) }
    else if str_eq(m, "JMPEQ") { convert_jmpeq(d, ctx) }
    else if str_eq(m, "JMPNE") { convert_jmpne(d, ctx) }
    else if str_eq(m, "JMPGE") { convert_jmpge(d, ctx) }
    else if str_eq(m, "JMPLE") { convert_jmple(d, ctx) }
    else if str_eq(m, "JMPGT") { convert_jmpgt(d, ctx) }
    else if str_eq(m, "JMPLT") { convert_jmplt(d, ctx) }
    else {
        Err(Failure::Error(SerializationErrorMessage::UnknownMnemonic(instr.inner.mnemonic.inner.clone())
            .with_span(instr.inner.mnemonic.span)))
    }
}

impl StructuredInstruction {
    /// The machine instruction a statement stands for, chosen by its mnemonic
    /// in any case.
    pub fn from_ast(instr: &Spanned<Instruction>, ctx: &Context) -> (r: SerializeResult<Self>)
        ensures
            agrees(r, spec_from_ast(ctx.spec_constants(), *instr)),
    {
        proof {
            crate::serialize::lemma_evaluation_never_panics(ctx.spec_constants());
        }
        settle(from_ast_outcome(instr, ctx))
    }
}

pub(crate) fn data_byte_outcome(detail: &Spanned<InstructionDetail>, arg: &Spanned<Operand>, ctx: &Context) -> (r: Outcome<u8>)
    ensures
        outcome_agrees(r, spec_data_byte(ctx.spec_constants(), *detail, *arg)),
{
    if let Err(e) = assert_no_destination_operand(detail) {
        return Err(Failure::Error(e));
    }
    match &arg.inner.core {
        CoreOperand::Constant(expr) => ctx.eval(expr),
        _ => Err(Failure::Error(operand_error("Operand of DATA must be an immediate constant expression", arg.span))),
    }
}

/// The byte of one DATA operand.
pub fn data_byte(detail: &Spanned<InstructionDetail>, arg: &Spanned<Operand>, ctx: &Context) -> (r: SerializeResult<u8>)
    ensures
        agrees(r, spec_data_byte(ctx.spec_constants(), *detail, *arg)),
{
    proof {
        crate::serialize::lemma_evaluation_never_panics(ctx.spec_constants());
    }
    settle(data_byte_outcome(detail, arg, ctx))
}

pub(crate) fn convert_instruction_outcome(instr: &Spanned<Instruction>, ctx: &Context) -> (r: Outcome<ConvertedInstruction>)
    ensures
        outcome_agrees(r, spec_convert_instruction(ctx.spec_constants(), *instr)),
{
    let upper = to_uppercase(instr.inner.mnemonic.inner.as_str());
    if str_eq(upper.as_str(), "CONST") {
        Err(Failure::Panic)
    } else if str_eq(upper.as_str(), "DATA") {
        let d = &instr.inner.detail;
        if let Err(e) = assert_operands(d, 1) {
            return Err(Failure::Error(e));
        }
        match data_byte_outcome(d, &d.inner.operands[0], ctx) {
            Ok(b) => Ok(ConvertedInstruction::Data(b)),
            Err(e) => Err(e),
        }
    } else {
        match from_ast_outcome(instr, ctx) {
            Ok(i) => Ok(ConvertedInstruction::Code(i)),
            Err(e) => Err(e),
        }
    }
}

/// A statement as a machine instruction or a data byte.
pub fn convert_instruction(instr: &Spanned<Instruction>, ctx: &Context) -> (r: SerializeResult<ConvertedInstruction>)
    requires
        !panics(spec_convert_instruction(ctx.spec_constants(), *instr)),
    ensures
        agrees(r, spec_convert_instruction(ctx.spec_constants(), *instr)),
{
    settle(convert_instruction_outcome(instr, ctx))
}

/// A statement that assembles to a machine instruction is written as two
/// bytes that the machine decodes back to the same instruction.
pub proof fn lemma_assembled_code_decodes(c: Seq<(Seq<char>, u8)>, instr: Spanned<Instruction>, i: StructuredInstruction)
    requires
        spec_convert_instruction(c, instr) == Ok::<ConvertedInstruction, Fault>(ConvertedInstruction::Code(i)),
    ensures
        well_formed(i),
        spec_from_bytes(spec_as_bytes(i).0, spec_as_bytes(i).1) == Some(i),
{
    assert(spec_from_ast(c, instr) == Ok::<StructuredInstruction, Fault>(i));
    assert(well_formed(i));
    crate::structured_instruction::lemma_decode_encode(i);
}

/// The MOV forms that the machine encodes: `e -> Rn`, `[e] -> Rn`,
/// `Rm -> [e]`, `Rm -> Rn`, `[Rm] -> Rn` and `Rm -> [Rn]`.
pub open spec fn mov_supported(src: Operand, dst: OutputOperand) -> bool {
    match (src.deref, src.core, dst) {
        (_, CoreOperand::Constant(_), OutputOperand::Register(_)) => true,
        (false, CoreOperand::Register(_), OutputOperand::ConstantDeref(_)) => true,
        (_, CoreOperand::Register(_), OutputOperand::Register(_)) => true,
        (false, CoreOperand::Register(_), OutputOperand::RegisterDeref(_)) => true,
        _ => false,
    }
}

/// What a supported MOV form encodes to, with its constant expression's
/// value `v` where it has one.
pub open spec fn mov_encoding(src: Operand, dst: OutputOperand, v: u8) -> StructuredInstruction {
    match (src.deref, src.core, dst) {
        (true, CoreOperand::Constant(_), OutputOperand::Register(r)) => StructuredInstruction::MovMemToReg(v, r.inner),
        (false, CoreOperand::Constant(_), OutputOperand::Register(r)) => StructuredInstruction::MovImmToReg(v, r.inner),
        (_, CoreOperand::Register(r), OutputOperand::ConstantDeref(_)) => StructuredInstruction::MovRegToMem(r.inner, v),
        (false, CoreOperand::Register(m), OutputOperand::Register(n)) => StructuredInstruction::MovRegToReg { src: m.inner, dst: n.inner },
        (true, CoreOperand::Register(m), OutputOperand::Register(n)) => StructuredInstruction::MovIndirectToReg { dst: n.inner, src: m.inner },
        (_, CoreOperand::Register(m), OutputOperand::RegisterDeref(n)) => StructuredInstruction::MovRegToIndirect { src: m.inner, dst: n.inner },
        _ => StructuredInstruction::Nop,
    }
}

/// The constant expression of a MOV form, if it has one.
pub open spec fn mov_expr(src: Operand, dst: OutputOperand) -> Option<Spanned<crate::ast::ConstantExpr>> {
    match (src.core, dst) {
        (CoreOperand::Constant(e), _) => Some(e),
        (_, OutputOperand::ConstantDeref(a)) => Some(a),
        _ => None,
    }
}

/// MOV with one source and a destination: a supported form encodes as its
/// instruction, with the value of its constant expression where it has one
/// (an error of that expression is the result otherwise); any other form is
/// refused as an invalid combination over both operands, before any
/// expression is evaluated.
pub proof fn lemma_mov_forms(c: Seq<(Seq<char>, u8)>, instr: Spanned<Instruction>)
    requires
        is_mnemonic(instr.inner.mnemonic.inner@, "MOV"),
        instr.inner.detail.inner.operands@.len() == 1,
        instr.inner.detail.inner.output is Some,
    ensures
        ({
            let src = instr.inner.detail.inner.operands@[0];
            let dst = instr.inner.detail.inner.output.unwrap();
            let r = spec_from_ast(c, instr);
            &&& !mov_supported(src.inner, dst.inner) ==> (r matches Err(Fault::Error(ev))
                && ev.message is InvalidOperandCombination && ev.span == span_union(src.span, dst.span))
            &&& mov_supported(src.inner, dst.inner) ==> match mov_expr(src.inner, dst.inner) {
                None => r == Ok::<StructuredInstruction, Fault>(mov_encoding(src.inner, dst.inner, 0)),
                Some(e) => match spec_eval(c, e) {
                    Ok(v) => r == Ok::<StructuredInstruction, Fault>(mov_encoding(src.inner, dst.inner, v)),
                    Err(f) => r == Err::<StructuredInstruction, Fault>(f),
                },
            }
        }),
{
}

/// Whether a statement assembles to the two bytes `b0` and `b1`.
pub open spec fn assembles_to_bytes(c: Seq<(Seq<char>, u8)>, instr: Spanned<Instruction>, b0: nat, b1: nat) -> bool {
    &&& spec_convert_instruction(c, instr) matches Ok(ConvertedInstruction::Code(i))
    &&& spec_as_bytes(i).0 == b0
    &&& spec_as_bytes(i).1 == b1
}

/// A comparing jump with two register operands assembles to the jump its
/// mnemonic names.
proof fn lemma_comparing_jump_statement(c: Seq<(Seq<char>, u8)>, instr: Spanned<Instruction>, t: Register, r: Register)
    requires
        instr.inner.detail.inner.operands@.len() == 2,
        instr.inner.detail.inner.output is None,
        direct_register(instr.inner.detail.inner.operands@[0].inner) == Some(t),
        direct_register(instr.inner.detail.inner.operands@[1].inner) == Some(r),
    ensures
        is_mnemonic(instr.inner.mnemonic.inner@, "JMPEQ") ==> spec_convert_instruction(c, instr)
            == Ok::<ConvertedInstruction, Fault>(ConvertedInstruction::Code(StructuredInstruction::JumpWithComparison(CmpjmpOperator::Eq, t, r))),
        is_mnemonic(instr.inner.mnemonic.inner@, "JMPNE") ==> spec_convert_instruction(c, instr)
            == Ok::<ConvertedInstruction, Fault>(ConvertedInstruction::Code(StructuredInstruction::JumpWithComparison(CmpjmpOperator::Ne, t, r))),
        is_mnemonic(instr.inner.mnemonic.inner@, "JMPGE") ==> spec_convert_instruction(c, instr)
            == Ok::<ConvertedInstruction, Fault>(ConvertedInstruction::Code(StructuredInstruction::JumpWithComparison(CmpjmpOperator::Ge, t, r))),
        is_mnemonic(instr.inner.mnemonic.inner@, "JMPLE") ==> spec_convert_instruction(c, instr)
            == Ok::<ConvertedInstruction, Fault>(ConvertedInstruction::Code(StructuredInstruction::JumpWithComparison(CmpjmpOperator::Le, t, r))),
        is_mnemonic(instr.inner.mnemonic.inner@, "JMPGT") ==> spec_convert_instruction(c, instr)
            == Ok::<ConvertedInstruction, Fault>(ConvertedInstruction::Code(StructuredInstruction::JumpWithComparison(CmpjmpOperator::Gt, t, r))),
        is_mnemonic(instr.inner.mnemonic.inner@, "JMPLT") ==> spec_convert_instruction(c, instr)
            == Ok::<ConvertedInstruction, Fault>(ConvertedInstruction::Code(StructuredInstruction::JumpWithComparison(CmpjmpOperator::Lt, t, r))),
{
    let m = instr.inner.mnemonic.inner@;
    reveal_strlit("CONST");
    reveal_strlit("DATA");
    reveal_strlit("MOV");
    reveal_strlit("HALT");
    reveal_strlit("NOP");
    reveal_strlit("ADDI");
    reveal_strlit("ADDF");
    reveal_strlit("OR");
    reveal_strlit("AND");
    reveal_strlit("XOR");
    reveal_strlit("ROT");
    reveal_strlit("JMP");
    reveal_strlit("JMPEQ");
    reveal_strlit("JMPNE");
    reveal_strlit("JMPGE");
    reveal_strlit("JMPLE");
    reveal_strlit("JMPGT");
    reveal_strlit("JMPLT");
    if is_mnemonic(m, "JMPEQ") {
        assert("JMPEQ"@[0] != "CONST"@[0]);
        assert("JMPEQ"@.len() != "DATA"@.len());
        assert("JMPEQ"@.len() != "MOV"@.len());
        assert("JMPEQ"@.len() != "HALT"@.len());
        assert("JMPEQ"@.len() != "NOP"@.len());
        assert("JMPEQ"@.len() != "ADDI"@.len());
        assert("JMPEQ"@.len() != "ADDF"@.len());
        assert("JMPEQ"@.len() != "OR"@.len());
        assert("JMPEQ"@.len() != "AND"@.len());
        assert("JMPEQ"@.len() != "XOR"@.len());
        assert("JMPEQ"@.len() != "ROT"@.len());
        assert("JMPEQ"@.len() != "JMP"@.len());
    }
    if is_mnemonic(m, "JMPNE") {
        assert("JMPNE"@[0] != "CONST"@[0]);
        assert("JMPNE"@.len() != "DATA"@.len());
        assert("JMPNE"@.len() != "MOV"@.len());
        assert("JMPNE"@.len() != "HALT"@.len());
        assert("JMPNE"@.len() != "NOP"@.len());
        assert("JMPNE"@.len() != "ADDI"@.len());
        assert("JMPNE"@.len() != "ADDF"@.len());
        assert("JMPNE"@.len() != "OR"@.len());
        assert("JMPNE"@.len() != "AND"@.len());
        assert("JMPNE"@.len() != "XOR"@.len());
        assert("JMPNE"@.len() != "ROT"@.len());
        assert("JMPNE"@.len() != "JMP"@.len());
        assert("JMPNE"@[3] != "JMPEQ"@[3]);
    }
    if is_mnemonic(m, "JMPGE") {
        assert("JMPGE"@[0] != "CONST"@[0]);
        assert("JMPGE"@.len() != "DATA"@.len());
        assert("JMPGE"@.len() != "MOV"@.len());
        assert("JMPGE"@.len() != "HALT"@.len());
        assert("JMPGE"@.len() != "NOP"@.len());
        assert("JMPGE"@.len() != "ADDI"@.len());
        assert("JMPGE"@.len() != "ADDF"@.len());
        assert("JMPGE"@.len() != "OR"@.len());
        assert("JMPGE"@.len() != "AND"@.len());
        assert("JMPGE"@.len() != "XOR"@.len());
        assert("JMPGE"@.len() != "ROT"@.len());
        assert("JMPGE"@.len() != "JMP"@.len());
        assert("JMPGE"@[3] != "JMPEQ"@[3]);
        assert("JMPGE"@[3] != "JMPNE"@[3]);
    }
    if is_mnemonic(m, "JMPLE") {
        assert("JMPLE"@[0] != "CONST"@[0]);
        assert("JMPLE"@.len() != "DATA"@.len());
        assert("JMPLE"@.len() != "MOV"@.len());
        assert("JMPLE"@.len() != "HALT"@.len());
        assert("JMPLE"@.len() != "NOP"@.len());
        assert("JMPLE"@.len() != "ADDI"@.len());
        assert("JMPLE"@.len() != "ADDF"@.len());
        assert("JMPLE"@.len() != "OR"@.len());
        assert("JMPLE"@.len() != "AND"@.len());
        assert("JMPLE"@.len() != "XOR"@.len());
        assert("JMPLE"@.len() != "ROT"@.len());
        assert("JMPLE"@.len() != "JMP"@.len());
        assert("JMPLE"@[3] != "JMPEQ"@[3]);
        assert("JMPLE"@[3] != "JMPNE"@[3]);
        assert("JMPLE"@[3] != "JMPGE"@[3]);
    }
    if is_mnemonic(m, "JMPGT") {
        assert("JMPGT"@[0] != "CONST"@[0]);
        assert("JMPGT"@.len() != "DATA"@.len());
        assert("JMPGT"@.len() != "MOV"@.len());
        assert("JMPGT"@.len() != "HALT"@.len());
        assert("JMPGT"@.len() != "NOP"@.len());
        assert("JMPGT"@.len() != "ADDI"@.len());
        assert("JMPGT"@.len() != "ADDF"@.len());
        assert("JMPGT"@.len() != "OR"@.len());
        assert("JMPGT"@.len() != "AND"@.len());
        assert("JMPGT"@.len() != "XOR"@.len());
        assert("JMPGT"@.len() != "ROT"@.len());
        assert("JMPGT"@.len() != "JMP"@.len());
        assert("JMPGT"@[3] != "JMPEQ"@[3]);
        assert("JMPGT"@[3] != "JMPNE"@[3]);
        assert("JMPGT"@[4] != "JMPGE"@[4]);
        assert("JMPGT"@[3] != "JMPLE"@[3]);
    }
    if is_mnemonic(m, "JMPLT") {
        assert("JMPLT"@[0] != "CONST"@[0]);
        assert("JMPLT"@.len() != "DATA"@.len());
        assert("JMPLT"@.len() != "MOV"@.len());
        assert("JMPLT"@.len() != "HALT"@.len());
        assert("JMPLT"@.len() != "NOP"@.len());
        assert("JMPLT"@.len() != "ADDI"@.len());
        assert("JMPLT"@.len() != "ADDF"@.len());
        assert("JMPLT"@.len() != "OR"@.len());
        assert("JMPLT"@.len() != "AND"@.len());
        assert("JMPLT"@.len() != "XOR"@.len());
        assert("JMPLT"@.len() != "ROT"@.len());
        assert("JMPLT"@.len() != "JMP"@.len());
        assert("JMPLT"@[3] != "JMPEQ"@[3]);
        assert("JMPLT"@[3] != "JMPNE"@[3]);
        assert("JMPLT"@[3] != "JMPGE"@[3]);
        assert("JMPLT"@[4] != "JMPLE"@[4]);
        assert("JMPLT"@[3] != "JMPGT"@[3]);
    }
}

/// The comparing jumps assemble to the encoding of the machine: a statement
/// `JMPxx Rt, Rc` (in any letter case) whose two operands are registers
/// gives the bytes `F c` and `n t`, where the test number `n` is 0 for EQ,
/// 1 for NE, 2 for GE, 3 for LE, 4 for GT and 5 for LT.
pub proof fn lemma_comparing_jumps_encode(c: Seq<(Seq<char>, u8)>, instr: Spanned<Instruction>, t: Register, r: Register)
    requires
        instr.inner.detail.inner.operands@.len() == 2,
        instr.inner.detail.inner.output is None,
        direct_register(instr.inner.detail.inner.operands@[0].inner) == Some(t),
        direct_register(instr.inner.detail.inner.operands@[1].inner) == Some(r),
    ensures
        is_mnemonic(instr.inner.mnemonic.inner@, "JMPEQ")
            ==> assembles_to_bytes(c, instr, 0xF0 + reg_index(r), 0 + reg_index(t)),
        is_mnemonic(instr.inner.mnemonic.inner@, "JMPNE")
            ==> assembles_to_bytes(c, instr, 0xF0 + reg_index(r), 16 + reg_index(t)),
        is_mnemonic(instr.inner.mnemonic.inner@, "JMPGE")
            ==> assembles_to_bytes(c, instr, 0xF0 + reg_index(r), 32 + reg_index(t)),
        is_mnemonic(instr.inner.mnemonic.inner@, "JMPLE")
            ==> assembles_to_bytes(c, instr, 0xF0 + reg_index(r), 48 + reg_index(t)),
        is_mnemonic(instr.inner.mnemonic.inner@, "JMPGT")
            ==> assembles_to_bytes(c, instr, 0xF0 + reg_index(r), 64 + reg_index(t)),
        is_mnemonic(instr.inner.mnemonic.inner@, "JMPLT")
            ==> assembles_to_bytes(c, instr, 0xF0 + reg_index(r), 80 + reg_index(t)),
{
    reveal(nib);
    crate::common::lemma_reg_index_roundtrip(t, 0);
    crate::common::lemma_reg_index_roundtrip(r, 0);
    lemma_comparing_jump_statement(c, instr, t, r);
}

/// The three-register statements assemble to the encoding of the machine:
/// `ADDI Ra, Rb -> Rd` (in any letter case) gives the bytes `5 d` and `a b`,
/// and ADDF, OR, AND and XOR likewise with 6, 7, 8 and 9.
pub proof fn lemma_register_operations_encode(
    c: Seq<(Seq<char>, u8)>,
    instr: Spanned<Instruction>,
    a: Register,
    b: Register,
    d: Register,
)
    requires
        instr.inner.detail.inner.operands@.len() == 2,
        instr.inner.detail.inner.operands@[0].inner.core matches CoreOperand::Register(x) && x.inner == a,
        instr.inner.detail.inner.operands@[1].inner.core matches CoreOperand::Register(x) && x.inner == b,
        instr.inner.detail.inner.output matches Some(o) && (o.inner matches OutputOperand::Register(x) && x.inner == d),
    ensures
        is_mnemonic(instr.inner.mnemonic.inner@, "ADDI")
            ==> assembles_to_bytes(c, instr, 80 + reg_index(d), reg_index(a) * 16 + reg_index(b)),
        is_mnemonic(instr.inner.mnemonic.inner@, "ADDF")
            ==> assembles_to_bytes(c, instr, 96 + reg_index(d), reg_index(a) * 16 + reg_index(b)),
        is_mnemonic(instr.inner.mnemonic.inner@, "OR")
            ==> assembles_to_bytes(c, instr, 112 + reg_index(d), reg_index(a) * 16 + reg_index(b)),
        is_mnemonic(instr.inner.mnemonic.inner@, "AND")
            ==> assembles_to_bytes(c, instr, 128 + reg_index(d), reg_index(a) * 16 + reg_index(b)),
        is_mnemonic(instr.inner.mnemonic.inner@, "XOR")
            ==> assembles_to_bytes(c, instr, 144 + reg_index(d), reg_index(a) * 16 + reg_index(b)),
{
    reveal(nib);
    crate::common::lemma_reg_index_roundtrip(a, 0);
    crate::common::lemma_reg_index_roundtrip(b, 0);
    crate::common::lemma_reg_index_roundtrip(d, 0);
    let m = instr.inner.mnemonic.inner@;
    reveal_strlit("CONST");
    reveal_strlit("DATA");
    reveal_strlit("MOV");
    reveal_strlit("HALT");
    reveal_strlit("NOP");
    reveal_strlit("ADDI");
    reveal_strlit("ADDF");
    reveal_strlit("OR");
    reveal_strlit("AND");
    reveal_strlit("XOR");
    if is_mnemonic(m, "ADDI") {
        assert("ADDI"@.len() != "CONST"@.len());
        assert("ADDI"@[0] != "DATA"@[0]);
        assert("ADDI"@.len() != "MOV"@.len());
        assert("ADDI"@[0] != "HALT"@[0]);
        assert("ADDI"@.len() != "NOP"@.len());
    }
    if is_mnemonic(m, "ADDF") {
        assert("ADDF"@.len() != "CONST"@.len());
        assert("ADDF"@[0] != "DATA"@[0]);
        assert("ADDF"@.len() != "MOV"@.len());
        assert("ADDF"@[0] != "HALT"@[0]);
        assert("ADDF"@.len() != "NOP"@.len());
        assert("ADDF"@[3] != "ADDI"@[3]);
    }
    if is_mnemonic(m, "OR") {
        assert("OR"@.len() != "CONST"@.len());
        assert("OR"@.len() != "DATA"@.len());
        assert("OR"@.len() != "MOV"@.len());
        assert("OR"@.len() != "HALT"@.len());
        assert("OR"@.len() != "NOP"@.len());
        assert("OR"@.len() != "ADDI"@.len());
        assert("OR"@.len() != "ADDF"@.len());
    }
    if is_mnemonic(m, "AND") {
        assert("AND"@.len() != "CONST"@.len());
        assert("AND"@.len() != "DATA"@.len());
        assert("AND"@[0] != "MOV"@[0]);
        assert("AND"@.len() != "HALT"@.len());
        assert("AND"@[0] != "NOP"@[0]);
        assert("AND"@.len() != "ADDI"@.len());
        assert("AND"@.len() != "ADDF"@.len());
        assert("AND"@.len() != "OR"@.len());
    }
    if is_mnemonic(m, "XOR") {
        assert("XOR"@.len() != "CONST"@.len());
        assert("XOR"@.len() != "DATA"@.len());
        assert("XOR"@[0] != "MOV"@[0]);
        assert("XOR"@.len() != "HALT"@.len());
        assert("XOR"@[0] != "NOP"@[0]);
        assert("XOR"@.len() != "ADDI"@.len());
        assert("XOR"@.len() != "ADDF"@.len());
        assert("XOR"@.len() != "OR"@.len());
        assert("XOR"@[0] != "AND"@[0]);
    }
}

/// HALT and NOP, with no operands, assemble to `C0 00` and `0F FF`.
pub proof fn lemma_halt_and_nop_encode(c: Seq<(Seq<char>, u8)>, instr: Spanned<Instruction>)
    requires
        instr.inner.detail.inner.operands@.len() == 0,
        instr.inner.detail.inner.output is None,
    ensures
        is_mnemonic(instr.inner.mnemonic.inner@, "HALT") ==> assembles_to_bytes(c, instr, 0xC0, 0x00),
        is_mnemonic(instr.inner.mnemonic.inner@, "NOP") ==> assembles_to_bytes(c, instr, 0x0F, 0xFF),
{
    let m = instr.inner.mnemonic.inner@;
    reveal_strlit("CONST");
    reveal_strlit("DATA");
    reveal_strlit("MOV");
    reveal_strlit("HALT");
    reveal_strlit("NOP");
    if is_mnemonic(m, "HALT") {
        assert("HALT"@.len() != "CONST"@.len());
        assert("HALT"@[0] != "DATA"@[0]);
        assert("HALT"@.len() != "MOV"@.len());
    }
    if is_mnemonic(m, "NOP") {
        assert("NOP"@.len() != "CONST"@.len());
        assert("NOP"@.len() != "DATA"@.len());
        assert("NOP"@[0] != "MOV"@[0]);
        assert("NOP"@.len() != "HALT"@.len());
    }
}

/// The text that `disasm` gives for a comparing jump assembles back to the
/// same jump: a statement whose mnemonic is the first word of that text and
/// whose operands are the two registers it names, in that order, is that
/// instruction again.
pub proof fn lemma_jump_disassembly_assembles_back(
    c: Seq<(Seq<char>, u8)>,
    instr: Spanned<Instruction>,
    op: CmpjmpOperator,
    t: Register,
    r: Register,
)
    requires
        instr.inner.detail.inner.operands@.len() == 2,
        instr.inner.detail.inner.output is None,
        direct_register(instr.inner.detail.inner.operands@[0].inner) == Some(t),
        direct_register(instr.inner.detail.inner.operands@[1].inner) == Some(r),
        !(op == CmpjmpOperator::Eq && r == Register::R0),
        spec_disasm(StructuredInstruction::JumpWithComparison(op, t, r))
            == instr.inner.mnemonic.inner@ + " R"@ + rh(t) + ", R"@ + rh(r),
    ensures
        spec_convert_instruction(c, instr)
            == Ok::<ConvertedInstruction, Fault>(ConvertedInstruction::Code(StructuredInstruction::JumpWithComparison(op, t, r))),
{
    let m = instr.inner.mnemonic.inner@;
    let name = "JMP"@ + test_suffix(op);
    let tail = " R"@ + rh(t) + ", R"@ + rh(r);
    assert(m + " R"@ + rh(t) + ", R"@ + rh(r) =~= m + tail);
    assert(name + " R"@ + rh(t) + ", R"@ + rh(r) =~= name + tail);
    reveal_strlit("JMP");
    reveal_strlit("EQ");
    reveal_strlit("NE");
    reveal_strlit("GE");
    reveal_strlit("LE");
    reveal_strlit("GT");
    reveal_strlit("LT");
    assert(name.len() == 5);
    assert(m =~= (m + tail).subrange(0, m.len() as int));
    assert(name =~= (name + tail).subrange(0, 5));
    assert(m =~= name);
    assert(is_ascii_chars(m));
    assert(ascii_upper(m) =~= m);
    lemma_comparing_jump_statement(c, instr, t, r);
    reveal_strlit("JMPEQ");
    reveal_strlit("JMPNE");
    reveal_strlit("JMPGE");
    reveal_strlit("JMPLE");
    reveal_strlit("JMPGT");
    reveal_strlit("JMPLT");
    match op {
        CmpjmpOperator::Eq => assert(m =~= "JMPEQ"@),
        CmpjmpOperator::Ne => assert(m =~= "JMPNE"@),
        CmpjmpOperator::Ge => assert(m =~= "JMPGE"@),
        CmpjmpOperator::Le => assert(m =~= "JMPLE"@),
        CmpjmpOperator::Gt => assert(m =~= "JMPGT"@),
        CmpjmpOperator::Lt => assert(m =~= "JMPLT"@),
    }
}

/// Two ASCII texts that differ only in the case of their letters.
pub open spec fn ascii_case_variants(a: Seq<char>, b: Seq<char>) -> bool {
    &&& is_ascii_chars(a)
    &&& is_ascii_chars(b)
    &&& a.len() == b.len()
    &&& forall|i: int| 0 <= i < a.len() ==> ascii_upper_char(#[trigger] a[i]) == ascii_upper_char(b[i])
}

/// Mnemonics are case-insensitive: two statements that differ only in the
/// case of the letters of their mnemonic assemble alike. Where the mnemonic is unknown, both
/// give the unknown-mnemonic error at the same place, and its text, which
/// shows the mnemonic in upper case, is the same.
pub proof fn lemma_mnemonic_case_insensitive(c: Seq<(Seq<char>, u8)>, a: Spanned<Instruction>, b: Spanned<Instruction>)
    requires
        a.span == b.span,
        a.inner.detail == b.inner.detail,
        a.inner.mnemonic.span == b.inner.mnemonic.span,
        ascii_case_variants(a.inner.mnemonic.inner@, b.inner.mnemonic.inner@),
    ensures
        spec_convert_instruction(c, a) == spec_convert_instruction(c, b) || ({
            &&& spec_convert_instruction(c, a) matches Err(Fault::Error(ea))
            &&& spec_convert_instruction(c, b) matches Err(Fault::Error(eb))
            &&& ea.message matches MessageView::UnknownMnemonic(ma)
            &&& eb.message matches MessageView::UnknownMnemonic(mb)
            &&& ea.span == eb.span
            &&& crate::errors::message_text(ea.message) == crate::errors::message_text(eb.message)
        }),
{
    assert(ascii_upper(a.inner.mnemonic.inner@) =~= ascii_upper(b.inner.mnemonic.inner@));
}

} // verus!
