use vstd::prelude::*;

use crate::ast::{ArithmeticOperator, Constant, ConstantExpr, CoreOperand, Instruction, Operand, Span, Spanned};
use crate::ast::{Annotation, Line};
use crate::convert::{is_mnemonic, operand_count_fault, destination_fault, spec_convert_instruction, spec_data_byte, ConvertedInstruction};
use crate::structured_instruction::spec_as_bytes;
use crate::table::{assoc_get, assoc_insert, assoc_keys, find_key, names, Table};
use crate::text::{dec_str, hex2, push_char, push_dec, push_hex2, push_str};
use vstd::utf8::{decode_utf8, encode_utf8, is_char_boundary};
use crate::convert::{assert_operands, assert_no_destination_operand, convert_instruction_outcome, data_byte_outcome, str_eq, to_uppercase};

verus! {

/// Why a program cannot be assembled.
#[derive(Debug)]
pub enum SerializationErrorMessage {
    UnexpectedOperandCount { expected: usize, found: usize },
    UnexpectedDestinationOperand,
    MissingDestinationOperand,
    InvalidOperandCombination(String),
    InvalidOperand(String),
    /// The undefined name, and the names that were defined.
    UndefinedConstant(String, Vec<String>),
    CyclicDependency(Vec<String>),
    UnknownMnemonic(String),
    MemoryLimitExceeded(u32),
    /// The span of an explicit address given just before, if there was one.
    UnlabeledConstant(Option<Span>),
    UnknownError(String),
}

/// An assembly error as a mathematical value.
pub enum MessageView {
    UnexpectedOperandCount { expected: nat, found: nat },
    UnexpectedDestinationOperand,
    MissingDestinationOperand,
    InvalidOperandCombination(Seq<char>),
    InvalidOperand(Seq<char>),
    UndefinedConstant(Seq<char>, Seq<Seq<char>>),
    CyclicDependency(Seq<Seq<char>>),
    UnknownMnemonic(Seq<char>),
    MemoryLimitExceeded(u32),
    UnlabeledConstant(Option<Span>),
    UnknownError(Seq<char>),
}

impl View for SerializationErrorMessage {
    type V = MessageView;

    open spec fn view(&self) -> MessageView {
        match self {
            SerializationErrorMessage::UnexpectedOperandCount { expected, found } =>
                MessageView::UnexpectedOperandCount { expected: *expected as nat, found: *found as nat },
            SerializationErrorMessage::UnexpectedDestinationOperand => MessageView::UnexpectedDestinationOperand,
            SerializationErrorMessage::MissingDestinationOperand => MessageView::MissingDestinationOperand,
            SerializationErrorMessage::InvalidOperandCombination(s) => MessageView::InvalidOperandCombination(s@),
            SerializationErrorMessage::InvalidOperand(s) => MessageView::InvalidOperand(s@),
            SerializationErrorMessage::UndefinedConstant(s, v) => MessageView::UndefinedConstant(s@, names(v@)),
            SerializationErrorMessage::CyclicDependency(v) => MessageView::CyclicDependency(names(v@)),
            SerializationErrorMessage::UnknownMnemonic(s) => MessageView::UnknownMnemonic(s@),
            SerializationErrorMessage::MemoryLimitExceeded(a) => MessageView::MemoryLimitExceeded(*a),
            SerializationErrorMessage::UnlabeledConstant(s) => MessageView::UnlabeledConstant(*s),
            SerializationErrorMessage::UnknownError(s) => MessageView::UnknownError(s@),
        }
    }
}

/// An assembly error and the source text it is about.
#[derive(Debug)]
pub struct SerializationError {
    pub message: SerializationErrorMessage,
    pub span: Span,
}

/// An assembly error as a mathematical value.
pub struct ErrorView {
    pub message: MessageView,
    pub span: Span,
}

impl View for SerializationError {
    type V = ErrorView;

    open spec fn view(&self) -> ErrorView {
        ErrorView { message: self.message@, span: self.span }
    }
}

impl SerializationErrorMessage {
    /// The error about the given source text.
    pub fn with_span(self, span: Span) -> (e: SerializationError)
        ensures
            e@ == (ErrorView { message: self@, span }),
    {
        SerializationError { message: self, span }
    }
}

pub type SerializeResult<T> = Result<T, SerializationError>;

/// How a step of assembling ends badly: with an error, or where assembling
/// panics.
#[derive(Debug)]
pub enum Failure {
    Error(SerializationError),
    Panic,
}

pub type Outcome<T> = Result<T, Failure>;

pub open spec fn failure_view(f: Failure) -> Fault {
    match f {
        Failure::Error(e) => Fault::Error(e@),
        Failure::Panic => Fault::Panic,
    }
}

/// An executable outcome is the specified one.
pub open spec fn outcome_agrees<T>(r: Outcome<T>, s: Result<T, Fault>) -> bool {
    match r {
        Ok(v) => s == Ok::<T, Fault>(v),
        Err(f) => s == Err::<T, Fault>(failure_view(f)),
    }
}

/// The result of an outcome that is no panic.
pub fn settle<T>(r: Outcome<T>) -> (s: SerializeResult<T>)
    requires
        !(r matches Err(Failure::Panic)),
    ensures
        match r {
            Ok(v) => s == Ok::<T, SerializationError>(v),
            Err(Failure::Error(e)) => s matches Err(e2) && e2@ == e@,
            Err(Failure::Panic) => false,
        },
{
    match r {
        Ok(v) => Ok(v),
        Err(Failure::Error(e)) => Err(e),
        Err(Failure::Panic) => {
            proof {
                assert(false);
            }
            Err(SerializationErrorMessage::UnknownError(String::new()).with_span(Span::new(0, 0)))
        },
    }
}

/// How assembling can go wrong: an error is reported, or the assembler panics.
pub enum Fault {
    Error(ErrorView),
    Panic,
}

/// An error about the given source text.
pub open spec fn err(message: MessageView, span: Span) -> Fault {
    Fault::Error(ErrorView { message, span })
}

/// An executable result agrees with a specified one that does not panic.
pub open spec fn agrees<T>(r: SerializeResult<T>, s: Result<T, Fault>) -> bool {
    match r {
        Ok(v) => s == Ok::<T, Fault>(v),
        Err(e) => s == Err::<T, Fault>(Fault::Error(e@)),
    }
}

/// The specified result is a panic.
pub open spec fn panics<T>(s: Result<T, Fault>) -> bool {
    s matches Err(Fault::Panic)
}

/// The error for a division or remainder by zero in the expression at `sp`.
pub open spec fn division_by_zero(sp: Span) -> Fault {
    err(MessageView::InvalidOperand("Division or remainder by zero in a constant expression"@), sp)
}

/// Byte arithmetic of the constant expression at `sp`, wrapping modulo 256;
/// division and remainder by zero are refused with an error there.
pub open spec fn spec_arith(op: ArithmeticOperator, l: u8, r: u8, sp: Span) -> Result<u8, Fault> {
    match op {
        ArithmeticOperator::Add => Ok(((l + r) % 256) as u8),
        ArithmeticOperator::Subtract => Ok(((l - r + 256) % 256) as u8),
        ArithmeticOperator::Multiply => Ok(((l * r) % 256) as u8),
        ArithmeticOperator::Divide => if r == 0 { Err(division_by_zero(sp)) } else { Ok((l / r) as u8) },
        ArithmeticOperator::Modulo => if r == 0 { Err(division_by_zero(sp)) } else { Ok((l % r) as u8) },
    }
}

/// The value of a constant expression under known constants: the left
/// operand is evaluated first, and the first failure wins.
pub open spec fn spec_eval(consts: Seq<(Seq<char>, u8)>, e: Spanned<ConstantExpr>) -> Result<u8, Fault>
    decreases e,
{
    match e.inner {
        ConstantExpr::Fundamental(c) => match c.inner {
            Constant::Literal(v) => Ok(v),
            Constant::Symbolic(s) => match assoc_get(consts, s@) {
                Some(v) => Ok(v),
                None => Err(err(MessageView::UndefinedConstant(s@, assoc_keys(consts)), e.span)),
            },
        },
        ConstantExpr::Arithmetic { left, right, operator } => match spec_eval(consts, *left) {
            Err(f) => Err(f),
            Ok(l) => match spec_eval(consts, *right) {
                Err(f) => Err(f),
                Ok(r) => spec_arith(operator.inner, l, r, e.span),
            },
        },
    }
}

/// Evaluating a constant expression never panics.
proof fn lemma_eval_no_panic(c: Seq<(Seq<char>, u8)>, e: Spanned<ConstantExpr>)
    ensures
        !panics(spec_eval(c, e)),
    decreases e,
{
    if let ConstantExpr::Arithmetic { left, right, operator } = e.inner {
        lemma_eval_no_panic(c, *left);
        lemma_eval_no_panic(c, *right);
    }
}

/// Evaluating constant expressions never panics.
pub proof fn lemma_evaluation_never_panics(c: Seq<(Seq<char>, u8)>)
    ensures
        forall|e: Spanned<ConstantExpr>| !panics(#[trigger] spec_eval(c, e)),
{
    assert forall|e: Spanned<ConstantExpr>| !panics(#[trigger] spec_eval(c, e)) by {
        lemma_eval_no_panic(c, e);
    }
}

fn arith(op: ArithmeticOperator, l: u8, r: u8, sp: Span) -> (v: Outcome<u8>)
    ensures
        outcome_agrees(v, spec_arith(op, l, r, sp)),
{
    match op {
        ArithmeticOperator::Add => {
            assert(((l + r) % 256) as u8 == vstd::wrapping::u8_specs::wrapping_add(l, r));
            Ok(l.wrapping_add(r))
        },
        ArithmeticOperator::Subtract => {
            assert(((l - r + 256) % 256) as u8 == vstd::wrapping::u8_specs::wrapping_sub(l, r));
            Ok(l.wrapping_sub(r))
        },
        ArithmeticOperator::Multiply => Ok(l.wrapping_mul(r)),
        ArithmeticOperator::Divide => if r == 0 { Err(Failure::Error(division_by_zero_error(sp))) } else { Ok(l / r) },
        ArithmeticOperator::Modulo => if r == 0 { Err(Failure::Error(division_by_zero_error(sp))) } else { Ok(l % r) },
    }
}

/// The error for a division or remainder by zero in the expression at `sp`.
fn division_by_zero_error(sp: Span) -> (e: SerializationError)
    ensures
        Fault::Error(e@) == division_by_zero(sp),
{
    SerializationErrorMessage::InvalidOperand("Division or remainder by zero in a constant expression".to_owned()).with_span(sp)
}

/// The known constants that constant expressions may name.
pub struct Context {
    constants: Table<u8>,
}

impl Context {
    /// The constants, in the order their names were first defined.
    pub closed spec fn spec_constants(&self) -> Seq<(Seq<char>, u8)> {
        self.constants.view()
    }

    /// A context with the given constants.
    pub fn from_table(constants: Table<u8>) -> (c: Context)
        ensures
            c.spec_constants() == constants.view(),
    {
        Context { constants }
    }

    /// Evaluates a constant expression.
    pub(crate) fn eval(&self, expr: &Spanned<ConstantExpr>) -> (r: Outcome<u8>)
        ensures
            outcome_agrees(r, spec_eval(self.spec_constants(), *expr)),
        decreases expr,
    {
        match &expr.inner {
            ConstantExpr::Fundamental(c) => match &c.inner {
                Constant::Literal(val) => Ok(*val),
                Constant::Symbolic(symbol) => match self.constants.get(symbol) {
                    Some(v) => Ok(v),
                    None => {
                        let valid_constants = self.constants.keys();
                        Err(Failure::Error(SerializationErrorMessage::UndefinedConstant(symbol.clone(), valid_constants)
                            .with_span(expr.span)))
                    },
                },
            },
            ConstantExpr::Arithmetic { left, right, operator } => {
                let l = match self.eval(left) {
                    Ok(v) => v,
                    Err(e) => return Err(e),
                };
                let r = match self.eval(right) {
                    Ok(v) => v,
                    Err(e) => return Err(e),
                };
                arith(operator.inner, l, r, expr.span)
            },
        }
    }

    /// Evaluates a constant expression.
    pub fn evaluate_constant_expr(&self, expr: &Spanned<ConstantExpr>) -> (r: SerializeResult<u8>)
        ensures
            agrees(r, spec_eval(self.spec_constants(), *expr)),
    {
        proof {
            lemma_eval_no_panic(self.spec_constants(), *expr);
        }
        settle(self.eval(expr))
    }
}

/// A statement placed at an address: a code statement, or one operand of a
/// DATA statement.
#[derive(Debug, Clone, Copy, PartialEq, Eq, Structural)]
pub struct Placed {
    pub addr: u32,
    /// The index of the source line.
    pub line: usize,
    /// The index of the DATA operand, for a data byte.
    pub data: Option<usize>,
}

/// The state of the first pass over the source lines.
#[verifier::ext_equal]
pub struct LayoutState {
    /// Names waiting for the next statement, in the order they appeared.
    pub waiting: Seq<Seq<char>>,
    /// Names bound to addresses, and those already resolved.
    pub constants: Seq<(Seq<char>, u8)>,
    /// Names of CONST statements, with the line of the statement.
    pub pending: Seq<(Seq<char>, usize)>,
    /// The runs of consecutive placements closed so far.
    pub segments: Seq<Seq<Placed>>,
    /// The current run.
    pub current: Seq<Placed>,
    /// The address of the next placement.
    pub addr: int,
    /// Whether an explicit address was just given, and its span; `Some(None)`
    /// after a CONST statement.
    pub just_set: Option<Option<Span>>,
    /// Whether a DATA statement has been seen.
    pub prev_was_data: bool,
}

/// The state before the first line.
pub open spec fn initial_layout() -> LayoutState {
    LayoutState {
        waiting: Seq::empty(),
        constants: Seq::empty(),
        pending: Seq::empty(),
        segments: Seq::empty(),
        current: Seq::empty(),
        addr: 0,
        just_set: None,
        prev_was_data: false,
    }
}

/// The code mnemonics.
pub open spec fn is_code_mnemonic(m: Seq<char>) -> bool {
    ||| is_mnemonic(m, "MOV")
    ||| is_mnemonic(m, "HALT")
    ||| is_mnemonic(m, "NOP")
    ||| is_mnemonic(m, "ADDI")
    ||| is_mnemonic(m, "ADDF")
    ||| is_mnemonic(m, "AND")
    ||| is_mnemonic(m, "OR")
    ||| is_mnemonic(m, "XOR")
    ||| is_mnemonic(m, "ROT")
    ||| is_mnemonic(m, "JMP")
    ||| is_mnemonic(m, "JMPEQ")
    ||| is_mnemonic(m, "JMPNE")
    ||| is_mnemonic(m, "JMPGE")
    ||| is_mnemonic(m, "JMPLE")
    ||| is_mnemonic(m, "JMPGT")
    ||| is_mnemonic(m, "JMPLT")
}

/// The next even address.
pub open spec fn spec_align(addr: int) -> int {
    if addr % 2 == 0 { addr } else { addr + 1 }
}

/// The message for a name bound to an address that does not fit in a byte.
pub open spec fn address_too_large(addr: int, label: Seq<char>) -> Seq<char> {
    "Address "@ + dec_str(addr as nat) + " is too large to fit in a byte for constant "@ + label
}

/// Binds every name in `names` to `v`, first name first.
pub open spec fn bind_all(c: Seq<(Seq<char>, u8)>, names: Seq<Seq<char>>, v: u8) -> Seq<(Seq<char>, u8)>
    decreases names.len(),
{
    if names.len() == 0 {
        c
    } else {
        assoc_insert(bind_all(c, names.drop_last(), v), names.last(), v)
    }
}

/// Binds every name in `names` to the line of a CONST statement.
pub open spec fn defer_all(p: Seq<(Seq<char>, usize)>, names: Seq<Seq<char>>, line: usize) -> Seq<(Seq<char>, usize)>
    decreases names.len(),
{
    if names.len() == 0 {
        p
    } else {
        assoc_insert(defer_all(p, names.drop_last(), line), names.last(), line)
    }
}

/// Binds the waiting names to the current address, which must fit in a byte
/// when there is a name to bind.
pub open spec fn bind_waiting(st: LayoutState, at: Span) -> Result<LayoutState, Fault> {
    if st.waiting.len() > 0 && st.addr > 255 {
        Err(err(MessageView::InvalidOperand(address_too_large(st.addr, st.waiting[0])), at))
    } else {
        Ok(LayoutState { constants: bind_all(st.constants, st.waiting, st.addr as u8), waiting: Seq::empty(), ..st })
    }
}

/// A name waits for the next statement; an explicit address closes the
/// current run and moves the placement address.
pub open spec fn layout_annotation(st: LayoutState, a: Option<Spanned<Annotation>>) -> LayoutState {
    match a {
        Some(sp) => match sp.inner {
            Annotation::Label(l) => if st.waiting.contains(l@) {
                st
            } else {
                LayoutState { waiting: st.waiting.push(l@), ..st }
            },
            Annotation::Offset(o) => LayoutState {
                segments: st.segments.push(st.current),
                current: Seq::empty(),
                addr: o as int,
                just_set: Some(Some(sp.span)),
                ..st
            },
        },
        None => st,
    }
}

/// The placements of the `n` operands of a DATA statement, one byte each.
pub open spec fn data_run(addr: int, line: usize, n: nat) -> Seq<Placed> {
    Seq::new(n, |j: int| Placed { addr: (addr + j) as u32, line, data: Some(j as usize) })
}

/// The span of an explicit address given just before, if any.
pub open spec fn flatten_span(j: Option<Option<Span>>) -> Option<Span> {
    match j {
        Some(Some(s)) => Some(s),
        _ => None,
    }
}

/// The first pass over one statement: CONST defers its names and moves
/// nothing, DATA places one byte per operand, and a code statement places two
/// bytes, at an even address when it follows DATA without an explicit
/// address between. Counting addresses past `u32::MAX` panics.
pub open spec fn layout_instruction(st: LayoutState, line: usize, instr: Spanned<Instruction>) -> Result<LayoutState, Fault> {
    let m = instr.inner.mnemonic.inner@;
    let d = instr.inner.detail;
    let at = instr.inner.mnemonic.span;
    if is_mnemonic(m, "CONST") {
        if let Some(f) = operand_count_fault(d, 1) {
            Err(f)
        } else if let Some(f) = destination_fault(d) {
            Err(f)
        } else {
            let op = d.inner.operands@[0];
            match op.inner.core {
                CoreOperand::Constant(_) => if st.waiting.len() == 0 {
                    Err(err(MessageView::UnlabeledConstant(flatten_span(st.just_set)), instr.span))
                } else {
                    Ok(LayoutState {
                        pending: defer_all(st.pending, st.waiting, line),
                        waiting: Seq::empty(),
                        just_set: if st.just_set is None { None } else { Some(None) },
                        ..st
                    })
                },
                _ => Err(err(MessageView::InvalidOperand("Operand of CONST must be an immediate constant expression"@), op.span)),
            }
        }
    } else if is_mnemonic(m, "DATA") {
        let n = d.inner.operands@.len();
        let st1 = if n > 0 { bind_waiting(st, at) } else { Ok(st) };
        match st1 {
            Err(f) => Err(f),
            Ok(st1) => if st1.addr + n > 0xFFFF_FFFF {
                Err(Fault::Panic)
            } else {
                Ok(LayoutState {
                    current: st1.current + data_run(st1.addr, line, n),
                    addr: st1.addr + n,
                    prev_was_data: true,
                    just_set: None,
                    ..st1
                })
            },
        }
    } else if is_code_mnemonic(m) {
        let st0 = if st.prev_was_data && st.just_set is None {
            LayoutState { segments: st.segments.push(st.current), current: Seq::empty(), addr: spec_align(st.addr), ..st }
        } else {
            st
        };
        if st0.addr > 0xFFFF_FFFF {
            Err(Fault::Panic)
        } else {
            match bind_waiting(st0, at) {
                Err(f) => Err(f),
                Ok(st1) => if st1.addr + 2 > 0xFFFF_FFFF {
                    Err(Fault::Panic)
                } else {
                    Ok(LayoutState {
                        current: st1.current.push(Placed { addr: st1.addr as u32, line, data: None }),
                        addr: st1.addr + 2,
                        just_set: None,
                        ..st1
                    })
                },
            }
        }
    } else {
        Err(err(MessageView::UnknownMnemonic(m), at))
    }
}

/// The first pass over one line.
pub open spec fn layout_line(st: LayoutState, line: usize, l: Line) -> Result<LayoutState, Fault> {
    let st1 = layout_annotation(st, l.annotation);
    match l.instruction {
        Some(i) => layout_instruction(st1, line, i),
        None => Ok(st1),
    }
}

/// The first pass over the first `n` lines.
pub open spec fn spec_layout(p: Seq<Spanned<Line>>, n: nat) -> Result<LayoutState, Fault>
    decreases n,
{
    if n == 0 {
        Ok(initial_layout())
    } else {
        match spec_layout(p, (n - 1) as nat) {
            Err(f) => Err(f),
            Ok(st) => layout_line(st, (n - 1) as usize, p[n - 1].inner),
        }
    }
}

/// The constant expression of the CONST statement on a line.
pub open spec fn const_expr(p: Seq<Spanned<Line>>, line: usize) -> Spanned<ConstantExpr> {
    match p[line as int].inner.instruction.unwrap().inner.detail.inner.operands@[0].inner.core {
        CoreOperand::Constant(e) => e,
        _ => arbitrary(),
    }
}

/// Every deferred name points at a CONST statement with a constant expression.
pub open spec fn pending_ok(p: Seq<Spanned<Line>>, pending: Seq<(Seq<char>, usize)>) -> bool {
    forall|i: int| 0 <= i < pending.len() ==> {
        let line = #[trigger] pending[i].1;
        &&& line < p.len()
        &&& p[line as int].inner.instruction is Some
        &&& p[line as int].inner.instruction.unwrap().inner.detail.inner.operands@.len() >= 1
        &&& p[line as int].inner.instruction.unwrap().inner.detail.inner.operands@[0].inner.core is Constant
    }
}

/// Resolving a deferred name's expression: names already known give their
/// value, deferred names are resolved first (an earlier name on the `stack`
/// is a cycle), and any other name is undefined. Resolved names are added to
/// the constants.
pub open spec fn spec_resolve(
    c: Seq<(Seq<char>, u8)>,
    p: Seq<Spanned<Line>>,
    pending: Seq<(Seq<char>, usize)>,
    stack: Seq<Seq<char>>,
    e: Spanned<ConstantExpr>,
) -> (Seq<(Seq<char>, u8)>, Result<u8, Fault>)
    decreases pending.len() - stack.len(), e,
{
    match e.inner {
        ConstantExpr::Fundamental(k) => match k.inner {
            Constant::Literal(v) => (c, Ok(v)),
            Constant::Symbolic(sym) => match assoc_get(c, sym@) {
                Some(v) => (c, Ok(v)),
                None => match assoc_get(pending, sym@) {
                    Some(line) => if stack.contains(sym@) {
                        (c, Err(err(
                            MessageView::CyclicDependency(stack.subrange(stack.index_of_first(sym@).unwrap(), stack.len() as int).push(sym@)),
                            k.span,
                        )))
                    } else if stack.len() >= pending.len() {
                        (c, Err(Fault::Panic))
                    } else {
                        let (c2, r) = spec_resolve(c, p, pending, stack.push(sym@), const_expr(p, line));
                        match r {
                            Ok(v) => (assoc_insert(c2, sym@, v), Ok(v)),
                            Err(f) => (c2, Err(f)),
                        }
                    },
                    None => (c, Err(err(MessageView::UndefinedConstant(sym@, assoc_keys(pending)), k.span))),
                },
            },
        },
        ConstantExpr::Arithmetic { left, right, operator } => {
            let (c1, l) = spec_resolve(c, p, pending, stack, *left);
            match l {
                Err(f) => (c1, Err(f)),
                Ok(lv) => {
                    let (c2, r) = spec_resolve(c1, p, pending, stack, *right);
                    match r {
                        Err(f) => (c2, Err(f)),
                        Ok(rv) => (c2, spec_arith(operator.inner, lv, rv, e.span)),
                    }
                },
            }
        },
    }
}

/// Resolving the deferred names in order, from the `k`-th on; names that are
/// known by then are skipped.
pub open spec fn spec_resolve_all(
    c: Seq<(Seq<char>, u8)>,
    p: Seq<Spanned<Line>>,
    pending: Seq<(Seq<char>, usize)>,
    k: nat,
) -> Result<Seq<(Seq<char>, u8)>, Fault>
    decreases pending.len() - k,
{
    if k >= pending.len() {
        Ok(c)
    } else {
        let (label, line) = pending[k as int];
        if assoc_get(c, label) is Some {
            spec_resolve_all(c, p, pending, k + 1)
        } else {
            let (c2, r) = spec_resolve(c, p, pending, seq![label], const_expr(p, line));
            match r {
                Err(f) => Err(f),
                Ok(v) => spec_resolve_all(assoc_insert(c2, label, v), p, pending, k + 1),
            }
        }
    }
}

/// `c2` keeps every value that `c` holds.
pub open spec fn extends(c: Seq<(Seq<char>, u8)>, c2: Seq<(Seq<char>, u8)>) -> bool {
    forall|k: Seq<char>| #[trigger] assoc_get(c, k) is Some ==> assoc_get(c2, k) == assoc_get(c, k)
}

/// `c` keeps the values of `c0`, and each name it adds is a deferred name
/// whose expression has, with the constants of `c`, the value `c` gives it.
pub open spec fn consistent(
    c0: Seq<(Seq<char>, u8)>,
    c: Seq<(Seq<char>, u8)>,
    p: Seq<Spanned<Line>>,
    pending: Seq<(Seq<char>, usize)>,
) -> bool {
    &&& extends(c0, c)
    &&& forall|k: Seq<char>| #[trigger] assoc_get(c, k) is Some && assoc_get(c0, k) is None ==> {
        &&& assoc_get(pending, k) is Some
        &&& spec_eval(c, const_expr(p, assoc_get(pending, k).unwrap())) == Ok::<u8, Fault>(assoc_get(c, k).unwrap())
    }
}

/// An expression keeps its value when constants are added.
proof fn lemma_eval_extends(c: Seq<(Seq<char>, u8)>, c2: Seq<(Seq<char>, u8)>, e: Spanned<ConstantExpr>)
    requires
        extends(c, c2),
        spec_eval(c, e) is Ok,
    ensures
        spec_eval(c2, e) == spec_eval(c, e),
    decreases e,
{
    match e.inner {
        ConstantExpr::Fundamental(k) => {
            if let Constant::Symbolic(sym) = k.inner {
                assert(assoc_get(c, sym@) is Some);
            }
        },
        ConstantExpr::Arithmetic { left, right, operator } => {
            lemma_eval_extends(c, c2, *left);
            lemma_eval_extends(c, c2, *right);
        },
    }
}

/// Adding a new name keeps every other value.
proof fn lemma_insert_new(c: Seq<(Seq<char>, u8)>, k: Seq<char>, v: u8)
    requires
        assoc_get(c, k) is None,
    ensures
        extends(c, assoc_insert(c, k, v)),
        forall|q: Seq<char>| #[trigger] assoc_get(assoc_insert(c, k, v), q) == (if q == k { Some(v) } else { assoc_get(c, q) }),
{
    assert forall|q: Seq<char>| #[trigger] assoc_get(assoc_insert(c, k, v), q) == (if q == k { Some(v) } else { assoc_get(c, q) }) by {
        crate::table::lemma_assoc_insert_get(c, k, v, q);
    }
}

/// Adding a deferred name with the value of its expression keeps the
/// constants consistent.
proof fn lemma_insert_consistent(
    c0: Seq<(Seq<char>, u8)>,
    c: Seq<(Seq<char>, u8)>,
    p: Seq<Spanned<Line>>,
    pending: Seq<(Seq<char>, usize)>,
    sym: Seq<char>,
    v: u8,
)
    requires
        consistent(c0, c, p, pending),
        assoc_get(c, sym) is None,
        assoc_get(pending, sym) is Some,
        spec_eval(c, const_expr(p, assoc_get(pending, sym).unwrap())) == Ok::<u8, Fault>(v),
    ensures
        extends(c, assoc_insert(c, sym, v)),
        consistent(c0, assoc_insert(c, sym, v), p, pending),
{
    let c3 = assoc_insert(c, sym, v);
    lemma_insert_new(c, sym, v);
    assert forall|k: Seq<char>| #[trigger] assoc_get(c3, k) is Some && assoc_get(c0, k) is None implies {
        &&& assoc_get(pending, k) is Some
        &&& spec_eval(c3, const_expr(p, assoc_get(pending, k).unwrap())) == Ok::<u8, Fault>(assoc_get(c3, k).unwrap())
    } by {
        if k == sym {
            lemma_eval_extends(c, c3, const_expr(p, assoc_get(pending, sym).unwrap()));
        } else {
            assert(assoc_get(c3, k) == assoc_get(c, k));
            lemma_eval_extends(c, c3, const_expr(p, assoc_get(pending, k).unwrap()));
        }
    }
}

/// The step that resolves a deferred name `sym` on line `line`, given what
/// resolving its expression with `sym` on the stack gave: the constants `c2`
/// and the result `r`.
proof fn lemma_deferred_step(
    c0: Seq<(Seq<char>, u8)>,
    c: Seq<(Seq<char>, u8)>,
    p: Seq<Spanned<Line>>,
    pending: Seq<(Seq<char>, usize)>,
    stack: Seq<Seq<char>>,
    sym: Seq<char>,
    line: usize,
    c2: Seq<(Seq<char>, u8)>,
    r: Result<u8, Fault>,
) -> (c3: Seq<(Seq<char>, u8)>)
    requires
        consistent(c0, c, p, pending),
        assoc_get(c, sym) is None,
        assoc_get(pending, sym) == Some(line),
        !stack.contains(sym),
        extends(c, c2),
        consistent(c0, c2, p, pending),
        forall|k: Seq<char>| #[trigger] assoc_get(c2, k) is Some && assoc_get(c, k) is None ==> !stack.push(sym).contains(k),
        r matches Ok(v) ==> spec_eval(c2, const_expr(p, line)) == Ok::<u8, Fault>(v),
    ensures
        c3 == (match r {
            Ok(v) => assoc_insert(c2, sym, v),
            Err(_) => c2,
        }),
        extends(c, c3),
        consistent(c0, c3, p, pending),
        forall|q: Seq<char>| #[trigger] assoc_get(c3, q) is Some && assoc_get(c, q) is None ==> !stack.contains(q),
        r matches Ok(v) ==> assoc_get(c3, sym) == Some(v),
{
    let st2 = stack.push(sym);
    assert(st2.contains(sym)) by {
        assert(st2[stack.len() as int] == sym);
    }
    assert(assoc_get(c2, sym) is None);
    assert forall|q: Seq<char>| stack.contains(q) implies #[trigger] st2.contains(q) by {
        let i = choose|i: int| 0 <= i < stack.len() && stack[i] == q;
        assert(st2[i] == q);
    }
    if let Ok(v) = r {
        lemma_insert_consistent(c0, c2, p, pending, sym, v);
        lemma_insert_new(c2, sym, v);
        let c3 = assoc_insert(c2, sym, v);
        assert(assoc_get(c3, sym) == Some(v));
        assert forall|q: Seq<char>| #[trigger] assoc_get(c3, q) is Some && assoc_get(c, q) is None implies !stack.contains(q) by {
            if q != sym {
                assert(assoc_get(c3, q) == assoc_get(c2, q));
            }
        }
        c3
    } else {
        c2
    }
}

/// What resolving `e` from the constants `c` keeps: the constants stay
/// consistent and only grow, no name on the `stack` is added, and a value
/// found is that of `e` with the constants at the end.
pub open spec fn resolve_post(
    c0: Seq<(Seq<char>, u8)>,
    c: Seq<(Seq<char>, u8)>,
    p: Seq<Spanned<Line>>,
    pending: Seq<(Seq<char>, usize)>,
    stack: Seq<Seq<char>>,
    e: Spanned<ConstantExpr>,
) -> bool {
    let (c2, r) = spec_resolve(c, p, pending, stack, e);
    &&& extends(c, c2)
    &&& consistent(c0, c2, p, pending)
    &&& forall|q: Seq<char>| #[trigger] assoc_get(c2, q) is Some && assoc_get(c, q) is None ==> !stack.contains(q)
    &&& r matches Ok(v) ==> spec_eval(c2, e) == Ok::<u8, Fault>(v)
}

/// Resolving a deferred name `sym`, given what resolving its expression
/// with `sym` on the stack keeps.
proof fn lemma_resolve_deferred(
    c0: Seq<(Seq<char>, u8)>,
    c: Seq<(Seq<char>, u8)>,
    p: Seq<Spanned<Line>>,
    pending: Seq<(Seq<char>, usize)>,
    stack: Seq<Seq<char>>,
    e: Spanned<ConstantExpr>,
    k: Spanned<Constant>,
    sym: String,
    line: usize,
)
    requires
        consistent(c0, c, p, pending),
        e.inner == ConstantExpr::Fundamental(k),
        k.inner == Constant::Symbolic(sym),
        assoc_get(c, sym@) is None,
        assoc_get(pending, sym@) == Some(line),
        !stack.contains(sym@),
        stack.len() < pending.len(),
        resolve_post(c0, c, p, pending, stack.push(sym@), const_expr(p, line)),
    ensures
        resolve_post(c0, c, p, pending, stack, e),
{
    let st2 = stack.push(sym@);
    let x = const_expr(p, line);
    let (c2, r) = spec_resolve(c, p, pending, st2, x);
    let c3 = lemma_deferred_step(c0, c, p, pending, stack, sym@, line, c2, r);
    assert(spec_resolve(c, p, pending, stack, e) == (c3, r));
}

/// Resolving an expression keeps the constants consistent, adds no name that
/// is being resolved, and, where it succeeds, gives the expression's value
/// with the constants it ends with.
proof fn lemma_resolve_consistent(
    c0: Seq<(Seq<char>, u8)>,
    c: Seq<(Seq<char>, u8)>,
    p: Seq<Spanned<Line>>,
    pending: Seq<(Seq<char>, usize)>,
    stack: Seq<Seq<char>>,
    e: Spanned<ConstantExpr>,
)
    requires
        consistent(c0, c, p, pending),
    ensures
        resolve_post(c0, c, p, pending, stack, e),
    decreases pending.len() - stack.len(), e,
{
    match e.inner {
        ConstantExpr::Fundamental(k) => {
            assert(extends(c, c));
            if let Constant::Symbolic(sym) = k.inner {
                if assoc_get(c, sym@) is None {
                    if let Some(line) = assoc_get(pending, sym@) {
                        if !stack.contains(sym@) && stack.len() < pending.len() {
                            lemma_resolve_consistent(c0, c, p, pending, stack.push(sym@), const_expr(p, line));
                            lemma_resolve_deferred(c0, c, p, pending, stack, e, k, sym, line);
                        }
                    }
                }
            }
        },
        ConstantExpr::Arithmetic { left, right, operator } => {
            lemma_resolve_consistent(c0, c, p, pending, stack, *left);
            let (c1, l) = spec_resolve(c, p, pending, stack, *left);
            if let Ok(lv) = l {
                lemma_resolve_consistent(c0, c1, p, pending, stack, *right);
                let (c2, r) = spec_resolve(c1, p, pending, stack, *right);
                lemma_eval_extends(c1, c2, *left);
            }
        },
    }
}

/// Resolving the deferred names from the `k`-th on keeps the constants
/// consistent and, where it succeeds, gives each of those names a value.
proof fn lemma_resolve_all_consistent(
    c0: Seq<(Seq<char>, u8)>,
    c: Seq<(Seq<char>, u8)>,
    p: Seq<Spanned<Line>>,
    pending: Seq<(Seq<char>, usize)>,
    k: nat,
)
    requires
        consistent(c0, c, p, pending),
        assoc_keys(pending).no_duplicates(),
    ensures
        spec_resolve_all(c, p, pending, k) matches Ok(c2) ==> {
            &&& extends(c, c2)
            &&& consistent(c0, c2, p, pending)
            &&& forall|i: int| k <= i < pending.len() ==> assoc_get(c2, #[trigger] pending[i].0) is Some
        },
    decreases pending.len() - k,
{
    if k < pending.len() {
        let (label, line) = pending[k as int];
        if assoc_get(c, label) is Some {
            lemma_resolve_all_consistent(c0, c, p, pending, k + 1);
        } else {
            let x = const_expr(p, line);
            lemma_resolve_consistent(c0, c, p, pending, seq![label], x);
            let (c2, r) = spec_resolve(c, p, pending, seq![label], x);
            if let Ok(v) = r {
                assert(seq![label].contains(label)) by {
                    assert(seq![label][0] == label);
                }
                assert(assoc_keys(pending)[k as int] == label);
                assert forall|j: int| 0 <= j < k implies pending[j].0 != label by {
                    assert(assoc_keys(pending)[j] == pending[j].0);
                }
                crate::table::lemma_find_key_char(pending, label, k as int);
                lemma_insert_consistent(c0, c2, p, pending, label, v);
                let c3 = assoc_insert(c2, label, v);
                lemma_insert_new(c2, label, v);
                lemma_resolve_all_consistent(c0, c3, p, pending, k + 1);
            }
        }
    }
}

/// Resolving the deferred names, where it succeeds, keeps every value known
/// before, gives every deferred name a value, and gives each deferred name
/// that had none the value of its expression with the constants that
/// result: a name can be used before or after its definition alike.
pub proof fn lemma_resolved_constants_consistent(
    c: Seq<(Seq<char>, u8)>,
    p: Seq<Spanned<Line>>,
    pending: Seq<(Seq<char>, usize)>,
)
    requires
        assoc_keys(pending).no_duplicates(),
    ensures
        spec_resolve_all(c, p, pending, 0) matches Ok(c2) ==> {
            &&& forall|q: Seq<char>| #[trigger] assoc_get(c, q) is Some ==> assoc_get(c2, q) == assoc_get(c, q)
            &&& forall|i: int| 0 <= i < pending.len() ==> assoc_get(c2, #[trigger] pending[i].0) is Some
            &&& forall|i: int| 0 <= i < pending.len() && assoc_get(c, #[trigger] pending[i].0) is None
                ==> spec_eval(c2, const_expr(p, pending[i].1)) == Ok::<u8, Fault>(assoc_get(c2, pending[i].0).unwrap())
        },
{
    lemma_resolve_all_consistent(c, c, p, pending, 0);
    if let Ok(c2) = spec_resolve_all(c, p, pending, 0) {
        assert forall|i: int| 0 <= i < pending.len() && assoc_get(c, #[trigger] pending[i].0) is None
            implies spec_eval(c2, const_expr(p, pending[i].1)) == Ok::<u8, Fault>(assoc_get(c2, pending[i].0).unwrap()) by {
            let label = pending[i].0;
            assert(assoc_get(c2, label) is Some);
            assert(assoc_keys(pending)[i] == label);
            assert forall|j: int| 0 <= j < i implies pending[j].0 != label by {
                assert(assoc_keys(pending)[j] == pending[j].0);
            }
            crate::table::lemma_find_key_char(pending, label, i);
        }
    }
}

/// The statement of a placement.
pub open spec fn entry_instr(p: Seq<Spanned<Line>>, e: Placed) -> Spanned<Instruction> {
    p[e.line as int].inner.instruction.unwrap()
}

/// What a placement assembles to: a DATA operand gives its byte, a statement
/// its instruction.
#[verifier::opaque]
pub open spec fn spec_serialize_entry(c: Seq<(Seq<char>, u8)>, p: Seq<Spanned<Line>>, e: Placed) -> Result<ConvertedInstruction, Fault> {
    let instr = entry_instr(p, e);
    match e.data {
        Some(j) => match spec_data_byte(c, instr.inner.detail, instr.inner.detail.inner.operands@[j as int]) {
            Ok(b) => Ok(ConvertedInstruction::Data(b)),
            Err(f) => Err(f),
        },
        None => spec_convert_instruction(c, instr),
    }
}

/// A byte of output, with the span of the statement that starts at it.
pub type Cell = (u8, Option<Span>);

/// An address with the two bytes placed there.
pub type Emitted = (u8, [Cell; 2]);

/// Prepends the entries to a result that went well.
pub open spec fn prepend(xs: Seq<Emitted>, r: Result<Seq<Emitted>, Fault>) -> Result<Seq<Emitted>, Fault> {
    match r {
        Ok(v) => Ok(xs + v),
        Err(f) => Err(f),
    }
}

/// The output of a run from its `i`-th placement on: a code statement gives
/// its two bytes; a data byte is paired with the next placement, which must
/// be a data byte at the next address, or with a zero at the end of the run.
pub open spec fn spec_emit_segment(c: Seq<(Seq<char>, u8)>, p: Seq<Spanned<Line>>, seg: Seq<Placed>, i: nat) -> Result<Seq<Emitted>, Fault>
    decreases seg.len() - i,
{
    if i >= seg.len() {
        Ok(Seq::empty())
    } else {
        let e = seg[i as int];
        let instr = entry_instr(p, e);
        match spec_serialize_entry(c, p, e) {
            Err(f) => Err(f),
            Ok(conv) => if e.addr > 255 {
                Err(err(MessageView::MemoryLimitExceeded(e.addr), instr.inner.mnemonic.span))
            } else {
                match conv {
                    ConvertedInstruction::Code(si) => prepend(
                        seq![(e.addr as u8, [(spec_as_bytes(si).0, Some(instr.span)), (spec_as_bytes(si).1, None)])],
                        spec_emit_segment(c, p, seg, i + 1),
                    ),
                    ConvertedInstruction::Data(b) => if i + 1 < seg.len() {
                        let n = seg[i + 1int];
                        if n.addr != e.addr + 1 {
                            Err(Fault::Panic)
                        } else {
                            match spec_serialize_entry(c, p, n) {
                                Err(f) => Err(f),
                                Ok(ConvertedInstruction::Code(_)) => Err(Fault::Panic),
                                Ok(ConvertedInstruction::Data(nb)) => prepend(
                                    seq![(e.addr as u8, [(b, Some(instr.span)), (nb, Some(entry_instr(p, n).span))])],
                                    spec_emit_segment(c, p, seg, i + 2),
                                ),
                            }
                        }
                    } else {
                        Ok(seq![(e.addr as u8, [(b, Some(instr.span)), (0u8, None)])])
                    },
                }
            },
        }
    }
}

/// The output of the runs from the `k`-th on.
pub open spec fn spec_emit_all(c: Seq<(Seq<char>, u8)>, p: Seq<Spanned<Line>>, segs: Seq<Seq<Placed>>, k: nat) -> Result<Seq<Emitted>, Fault>
    decreases segs.len() - k,
{
    if k >= segs.len() {
        Ok(Seq::empty())
    } else {
        match spec_emit_segment(c, p, segs[k as int], 0) {
            Err(f) => Err(f),
            Ok(v) => prepend(v, spec_emit_all(c, p, segs, k + 1)),
        }
    }
}

/// Which output entries of a run, from its `i`-th placement on, end in a
/// filler: a data byte with no data byte after it in its run is paired with
/// a zero that stands for no byte of the program.
pub open spec fn spec_pads_segment(c: Seq<(Seq<char>, u8)>, p: Seq<Spanned<Line>>, seg: Seq<Placed>, i: nat) -> Seq<bool>
    decreases seg.len() - i,
{
    if i >= seg.len() {
        Seq::empty()
    } else {
        match spec_serialize_entry(c, p, seg[i as int]) {
            Ok(ConvertedInstruction::Data(_)) => if i + 1 < seg.len() {
                seq![false] + spec_pads_segment(c, p, seg, i + 2)
            } else {
                seq![true]
            },
            _ => seq![false] + spec_pads_segment(c, p, seg, i + 1),
        }
    }
}

/// Which output entries of the runs from the `k`-th on end in a filler.
pub open spec fn spec_pads_all(c: Seq<(Seq<char>, u8)>, p: Seq<Spanned<Line>>, segs: Seq<Seq<Placed>>, k: nat) -> Seq<bool>
    decreases segs.len() - k,
{
    if k >= segs.len() {
        Seq::empty()
    } else {
        spec_pads_segment(c, p, segs[k as int], 0) + spec_pads_all(c, p, segs, k + 1)
    }
}

/// Which output entries of an assembled program end in a filler.
pub open spec fn spec_serialize_pads(p: Seq<Spanned<Line>>) -> Seq<bool> {
    match spec_layout(p, p.len()) {
        Err(_) => Seq::empty(),
        Ok(st) => match spec_resolve_all(st.constants, p, st.pending, 0) {
            Err(_) => Seq::empty(),
            Ok(c) => spec_pads_all(c, p, st.segments.push(st.current), 0),
        },
    }
}

/// Assembling a program: lay out the statements, resolve the CONST names,
/// then encode every placement.
pub open spec fn spec_serialize_program(p: Seq<Spanned<Line>>) -> Result<Seq<Emitted>, Fault> {
    match spec_layout(p, p.len()) {
        Err(f) => Err(f),
        Ok(st) => match spec_resolve_all(st.constants, p, st.pending, 0) {
            Err(f) => Err(f),
            Ok(c) => spec_emit_all(c, p, st.segments.push(st.current), 0),
        },
    }
}

/// The mutable state of the first pass.
struct Layout {
    waiting: Vec<String>,
    constants: Table<u8>,
    pending: Table<usize>,
    segments: Vec<Vec<Placed>>,
    current: Vec<Placed>,
    addr: u32,
    just_set: Option<Option<Span>>,
    prev_was_data: bool,
}

/// The runs of a layout as sequences.
spec fn segs_view(v: Seq<Vec<Placed>>) -> Seq<Seq<Placed>> {
    v.map_values(|x: Vec<Placed>| x@)
}

impl Layout {
    spec fn view(&self) -> LayoutState {
        LayoutState {
            waiting: names(self.waiting@),
            constants: self.constants.view(),
            pending: self.pending.view(),
            segments: segs_view(self.segments@),
            current: self.current@,
            addr: self.addr as int,
            just_set: self.just_set,
            prev_was_data: self.prev_was_data,
        }
    }

    fn close_run(&mut self)
        ensures
            final(self).view() == (LayoutState {
                segments: old(self).view().segments.push(old(self).view().current),
                current: Seq::empty(),
                ..old(self).view()
            }),
    {
        let mut run: Vec<Placed> = Vec::new();
        std::mem::swap(&mut run, &mut self.current);
        self.segments.push(run);
        assert(segs_view(self.segments@) =~= segs_view(old(self).segments@).push(old(self).current@));
    }

    fn is_waiting(&self, l: &String) -> (r: bool)
        ensures
            r == self.view().waiting.contains(l@),
    {
        let mut i: usize = 0;
        while i < self.waiting.len()
            invariant
                i <= self.waiting@.len(),
                forall|j: int| 0 <= j < i ==> names(self.waiting@)[j] != l@,
            decreases self.waiting@.len() - i,
        {
            if self.waiting[i] == *l {
                assert(names(self.waiting@)[i as int] == l@);
                return true;
            }
            i = i + 1;
        }
        false
    }

    fn bind_waiting(&mut self, at: Span) -> (r: SerializeResult<()>)
        ensures
            match bind_waiting(old(self).view(), at) {
                Ok(st) => r is Ok && final(self).view() == st,
                Err(f) => r matches Err(e) && f == Fault::Error(e@),
            },
    {
        if self.waiting.len() > 0 && self.addr > 255 {
            let mut msg = String::new();
            push_str(&mut msg, "Address ");
            push_dec(&mut msg, self.addr as u64);
            push_str(&mut msg, " is too large to fit in a byte for constant ");
            push_str(&mut msg, self.waiting[0].as_str());
            assert(msg@ =~= address_too_large(self.addr as int, names(self.waiting@)[0]));
            return Err(SerializationErrorMessage::InvalidOperand(msg).with_span(at));
        }
        let v = self.addr as u8;
        let mut i: usize = 0;
        while i < self.waiting.len()
            invariant
                i <= self.waiting@.len(),
                self.waiting == old(self).waiting,
                self.pending == old(self).pending,
                self.segments == old(self).segments,
                self.current == old(self).current,
                self.addr == old(self).addr,
                self.just_set == old(self).just_set,
                self.prev_was_data == old(self).prev_was_data,
                self.constants.view() == bind_all(old(self).constants.view(), names(self.waiting@).take(i as int), v),
            decreases self.waiting@.len() - i,
        {
            let name = self.waiting[i].clone();
            self.constants.insert(name, v);
            proof {
                assert(names(self.waiting@).take(i + 1).drop_last() =~= names(self.waiting@).take(i as int));
            }
            i = i + 1;
        }
        assert(names(self.waiting@).take(i as int) =~= names(self.waiting@));
        self.waiting = Vec::new();
        assert(names(self.waiting@) =~= Seq::<Seq<char>>::empty());
        assert(self.view() =~= bind_waiting(old(self).view(), at)->Ok_0);
        Ok(())
    }

    fn annotate(&mut self, a: &Option<Spanned<Annotation>>)
        ensures
            final(self).view() == layout_annotation(old(self).view(), *a),
    {
        match a {
            Some(sp) => match &sp.inner {
                Annotation::Label(l) => {
                    if !self.is_waiting(l) {
                        self.waiting.push(l.clone());
                        assert(names(self.waiting@) =~= names(old(self).waiting@).push(l@));
                    }
                },
                Annotation::Offset(o) => {
                    self.close_run();
                    self.addr = *o as u32;
                    self.just_set = Some(Some(sp.span));
                },
            },
            None => {},
        }
    }

    fn defer_waiting(&mut self, line: usize)
        ensures
            final(self).view() == (LayoutState {
                pending: defer_all(old(self).view().pending, old(self).view().waiting, line),
                waiting: Seq::empty(),
                ..old(self).view()
            }),
    {
        let mut i: usize = 0;
        while i < self.waiting.len()
            invariant
                i <= self.waiting@.len(),
                self.waiting == old(self).waiting,
                self.constants == old(self).constants,
                self.segments == old(self).segments,
                self.current == old(self).current,
                self.addr == old(self).addr,
                self.just_set == old(self).just_set,
                self.prev_was_data == old(self).prev_was_data,
                self.pending.view() == defer_all(old(self).pending.view(), names(self.waiting@).take(i as int), line),
            decreases self.waiting@.len() - i,
        {
            let name = self.waiting[i].clone();
            self.pending.insert(name, line);
            proof {
                assert(names(self.waiting@).take(i + 1).drop_last() =~= names(self.waiting@).take(i as int));
            }
            i = i + 1;
        }
        assert(names(self.waiting@).take(i as int) =~= names(self.waiting@));
        self.waiting = Vec::new();
        assert(names(self.waiting@) =~= Seq::<Seq<char>>::empty());
        assert(self.view() =~= (LayoutState {
            pending: defer_all(old(self).view().pending, old(self).view().waiting, line),
            waiting: Seq::empty(),
            ..old(self).view()
        }));
    }

    fn place(&mut self, line: usize, instr: &Spanned<Instruction>) -> (r: Outcome<()>)
        ensures
            match layout_instruction(old(self).view(), line, *instr) {
                Ok(st) => r is Ok && final(self).view() == st,
                Err(f) => r matches Err(e) && f == failure_view(e),
            },
    {
        let upper = to_uppercase(instr.inner.mnemonic.inner.as_str());
        let m = upper.as_str();
        let d = &instr.inner.detail;
        let at = instr.inner.mnemonic.span;
        if str_eq(m, "CONST") {
            if let Err(e) = assert_operands(d, 1) {
                return Err(Failure::Error(e));
            }
            if let Err(e) = assert_no_destination_operand(d) {
                return Err(Failure::Error(e));
            }
            let op = &d.inner.operands[0];
            match &op.inner.core {
                CoreOperand::Constant(_) => {
                    if self.waiting.len() == 0 {
                        let j = match self.just_set {
                            Some(Some(sp)) => Some(sp),
                            _ => None,
                        };
                        return Err(Failure::Error(SerializationErrorMessage::UnlabeledConstant(j).with_span(instr.span)));
                    }
                    self.defer_waiting(line);
                    if self.just_set.is_some() {
                        self.just_set = Some(None);
                    }
                    Ok(())
                },
                _ => Err(Failure::Error(SerializationErrorMessage::InvalidOperand(
                    "Operand of CONST must be an immediate constant expression".to_owned(),
                ).with_span(op.span))),
            }
        } else if str_eq(m, "DATA") {
            let n = d.inner.operands.len();
            if n > 0 {
                if let Err(e) = self.bind_waiting(at) {
                    return Err(Failure::Error(e));
                }
            }
            if n as u64 > 0xFFFF_FFFFu64 - self.addr as u64 {
                return Err(Failure::Panic);
            }
            let ghost st1 = self.view();
            let mut j: usize = 0;
            while j < n
                invariant
                    j <= n,
                    n == d.inner.operands@.len(),
                    st1.addr + n <= 0xFFFF_FFFF,
                    self.view() == (LayoutState {
                        current: st1.current + data_run(st1.addr, line, j as nat),
                        addr: st1.addr + j,
                        ..st1
                    }),
                decreases n - j,
            {
                self.current.push(Placed { addr: self.addr, line, data: Some(j) });
                self.addr = self.addr + 1;
                proof {
                    assert(self.current@ =~= st1.current + data_run(st1.addr, line, (j + 1) as nat));
                }
                j = j + 1;
            }
            self.prev_was_data = true;
            self.just_set = None;
            assert(self.view() =~= layout_instruction(old(self).view(), line, *instr)->Ok_0);
            Ok(())
        } else if str_eq(m, "MOV") || str_eq(m, "HALT") || str_eq(m, "NOP") || str_eq(m, "ADDI")
            || str_eq(m, "ADDF") || str_eq(m, "AND") || str_eq(m, "OR") || str_eq(m, "XOR")
            || str_eq(m, "ROT") || str_eq(m, "JMP") || str_eq(m, "JMPEQ") || str_eq(m, "JMPNE")
            || str_eq(m, "JMPGE") || str_eq(m, "JMPLE") || str_eq(m, "JMPGT") || str_eq(m, "JMPLT") {
            if self.prev_was_data && self.just_set.is_none() {
                if self.addr == 0xFFFF_FFFF {
                    return Err(Failure::Panic);
                }
                self.close_run();
                self.addr = align(self.addr, 0);
            }
            if let Err(e) = self.bind_waiting(at) {
                return Err(Failure::Error(e));
            }
            if self.addr > 0xFFFF_FFFD {
                return Err(Failure::Panic);
            }
            self.current.push(Placed { addr: self.addr, line, data: None });
            self.addr = self.addr + 2;
            self.just_set = None;
            assert(self.view() =~= layout_instruction(old(self).view(), line, *instr)->Ok_0);
            Ok(())
        } else {
            Err(Failure::Error(SerializationErrorMessage::UnknownMnemonic(instr.inner.mnemonic.inner.clone()).with_span(at)))
        }
    }

}

/// Rounds `addr` up to the next instruction boundary, counted from
/// `alignment_offset`.
pub fn align(addr: u32, alignment_offset: u32) -> (r: u32)
    requires
        alignment_offset <= addr,
        spec_align(addr - alignment_offset) + alignment_offset <= 0xFFFF_FFFF,
    ensures
        r == spec_align(addr - alignment_offset) + alignment_offset,
{
    let d = addr - alignment_offset;
    if d % 2 == 0 {
        addr
    } else {
        d + 1 + alignment_offset
    }
}

/// A placement points at a statement, and a data byte at one of its operands.
pub open spec fn placed_ok(p: Seq<Spanned<Line>>, e: Placed) -> bool {
    &&& e.line < p.len()
    &&& p[e.line as int].inner.instruction is Some
    &&& e.data matches Some(j) ==> j < p[e.line as int].inner.instruction.unwrap().inner.detail.inner.operands@.len()
}

/// What the first pass keeps true of its state.
pub open spec fn layout_inv(p: Seq<Spanned<Line>>, st: LayoutState) -> bool {
    &&& pending_ok(p, st.pending)
    &&& forall|i: int| 0 <= i < st.current.len() ==> placed_ok(p, #[trigger] st.current[i])
    &&& forall|k: int, i: int| 0 <= k < st.segments.len() && 0 <= i < st.segments[k].len()
        ==> placed_ok(p, #[trigger] st.segments[k][i])
}

proof fn lemma_insert_values<V>(e: Seq<(Seq<char>, V)>, k: Seq<char>, v: V, pred: spec_fn(V) -> bool)
    requires
        forall|i: int| 0 <= i < e.len() ==> pred(#[trigger] e[i].1),
        pred(v),
    ensures
        forall|i: int| 0 <= i < assoc_insert(e, k, v).len() ==> pred(#[trigger] assoc_insert(e, k, v)[i].1),
{
    crate::table::lemma_find_key(e, k);
}

proof fn lemma_defer_all_values(p: Seq<(Seq<char>, usize)>, names: Seq<Seq<char>>, line: usize, pred: spec_fn(usize) -> bool)
    requires
        forall|i: int| 0 <= i < p.len() ==> pred(#[trigger] p[i].1),
        pred(line),
    ensures
        forall|i: int| 0 <= i < defer_all(p, names, line).len() ==> pred(#[trigger] defer_all(p, names, line)[i].1),
    decreases names.len(),
{
    if names.len() > 0 {
        lemma_defer_all_values(p, names.drop_last(), line, pred);
        lemma_insert_values(defer_all(p, names.drop_last(), line), names.last(), line, pred);
    }
}

/// The first pass keeps its invariant.
pub proof fn lemma_layout_inv(p: Seq<Spanned<Line>>, n: nat)
    requires
        n <= p.len(),
        p.len() <= usize::MAX,
    ensures
        spec_layout(p, n) matches Ok(st) ==> layout_inv(p, st),
    decreases n,
{
    if n > 0 {
        lemma_layout_inv(p, (n - 1) as nat);
        if let Ok(st) = spec_layout(p, (n - 1) as nat) {
            let k = (n - 1) as usize;
            let l = p[k as int].inner;
            let st1 = layout_annotation(st, l.annotation);
            assert(layout_inv(p, st1));
            if let Some(instr) = l.instruction {
                let pred = |line: usize| line < p.len()
                    && p[line as int].inner.instruction is Some
                    && p[line as int].inner.instruction.unwrap().inner.detail.inner.operands@.len() >= 1
                    && p[line as int].inner.instruction.unwrap().inner.detail.inner.operands@[0].inner.core is Constant;
                if let Ok(st2) = layout_instruction(st1, k, instr) {
                    let m = instr.inner.mnemonic.inner@;
                    if is_mnemonic(m, "CONST") {
                        lemma_defer_all_values(st1.pending, st1.waiting, k, pred);
                        assert(pending_ok(p, st2.pending));
                        assert(layout_inv(p, st2));
                    } else if is_mnemonic(m, "DATA") {
                        assert(layout_inv(p, st2));
                    } else {
                        assert(layout_inv(p, st2));
                    }
                }
            } else {
                assert(spec_layout(p, n) == Ok::<LayoutState, Fault>(st1));
            }
        }
    }
}

/// The first pass over all lines.
fn layout_program(program: &[Spanned<Line>]) -> (r: Outcome<Layout>)
    ensures
        match spec_layout(program@, program@.len()) {
            Ok(st) => r matches Ok(l) && l.view() == st,
            Err(f) => r matches Err(e) && f == failure_view(e),
        },
{
    let mut st = Layout {
        waiting: Vec::new(),
        constants: Table::new(),
        pending: Table::new(),
        segments: Vec::new(),
        current: Vec::new(),
        addr: 0,
        just_set: None,
        prev_was_data: false,
    };
    assert(st.view() =~= initial_layout()) by {
        assert(names(st.waiting@) =~= Seq::<Seq<char>>::empty());
        assert(segs_view(st.segments@) =~= Seq::<Seq<Placed>>::empty());
    }
    let mut k: usize = 0;
    while k < program.len()
        invariant
            k <= program@.len(),
            spec_layout(program@, k as nat) == Ok::<LayoutState, Fault>(st.view()),
        decreases program@.len() - k,
    {
        let line = &program[k].inner;
        st.annotate(&line.annotation);
        match &line.instruction {
            Some(instr) => {
                if let Err(e) = st.place(k, instr) {
                    proof {
                        lemma_layout_fails_forever(program@, (k + 1) as nat, program@.len());
                    }
                    return Err(e);
                }
            },
            None => {},
        }
        k = k + 1;
    }
    Ok(st)
}

proof fn lemma_layout_fails_forever(p: Seq<Spanned<Line>>, a: nat, b: nat)
    requires
        a <= b,
        spec_layout(p, a) is Err,
    ensures
        spec_layout(p, b) == spec_layout(p, a),
    decreases b,
{
    if a < b {
        lemma_layout_fails_forever(p, a, (b - 1) as nat);
    }
}

/// A stack of distinct deferred names has room for one more deferred name.
proof fn lemma_stack_room(stack: Seq<Seq<char>>, keys: Seq<Seq<char>>, sym: Seq<char>)
    requires
        stack.no_duplicates(),
        forall|i: int| 0 <= i < stack.len() ==> keys.contains(#[trigger] stack[i]),
        keys.contains(sym),
        !stack.contains(sym),
    ensures
        stack.len() < keys.len(),
{
    let s2 = stack.push(sym);
    assert(s2.no_duplicates());
    s2.unique_seq_to_set();
    keys.lemma_cardinality_of_set();
    assert(s2.to_set().subset_of(keys.to_set())) by {
        assert forall|x: Seq<char>| s2.to_set().contains(x) implies keys.to_set().contains(x) by {
            let i = choose|i: int| 0 <= i < s2.len() && s2[i] == x;
            if i < stack.len() {
                assert(keys.contains(stack[i]));
            }
        }
    }
    vstd::set_lib::lemma_len_subset(s2.to_set(), keys.to_set());
}

/// The keys of a table are the names of its entries.
proof fn lemma_keys_contains<V>(e: Seq<(Seq<char>, V)>, k: Seq<char>)
    requires
        assoc_get(e, k) is Some,
    ensures
        assoc_keys(e).contains(k),
{
    crate::table::lemma_find_key(e, k);
    let i = find_key(e, k).unwrap();
    assert(assoc_keys(e)[i as int] == k);
}

/// The constant expression of a deferred name's CONST statement.
fn pending_expr<'a>(program: &'a [Spanned<Line>], line: usize) -> (e: Option<&'a Spanned<ConstantExpr>>)
    requires
        line < program@.len(),
        program@[line as int].inner.instruction is Some,
        program@[line as int].inner.instruction.unwrap().inner.detail.inner.operands@.len() >= 1,
        program@[line as int].inner.instruction.unwrap().inner.detail.inner.operands@[0].inner.core is Constant,
    ensures
        e matches Some(x) && *x == const_expr(program@, line),
{
    match &program[line].inner.instruction {
        Some(i) => match &i.inner.detail.inner.operands[0].inner.core {
            CoreOperand::Constant(e) => Some(e),
            CoreOperand::Register(_) => None,
        },
        None => None,
    }
}

/// A stack of deferred names being resolved: distinct, and all deferred.
pub open spec fn stack_ok(stack: Seq<Seq<char>>, pending: Seq<(Seq<char>, usize)>) -> bool {
    &&& stack.no_duplicates()
    &&& forall|i: int| 0 <= i < stack.len() ==> assoc_keys(pending).contains(#[trigger] stack[i])
}

fn resolve(
    constants: &mut Table<u8>,
    pending: &Table<usize>,
    program: &[Spanned<Line>],
    stack: Vec<String>,
    current_expr: &Spanned<ConstantExpr>,
) -> (r: Outcome<u8>)
    requires
        pending_ok(program@, pending.view()),
        stack_ok(names(stack@), pending.view()),
        stack@.len() <= pending.view().len(),
    ensures
        final(constants).view() == spec_resolve(old(constants).view(), program@, pending.view(), names(stack@), *current_expr).0,
        outcome_agrees(r, spec_resolve(old(constants).view(), program@, pending.view(), names(stack@), *current_expr).1),
    decreases pending.view().len() - stack@.len(), current_expr,
{
    match &current_expr.inner {
        ConstantExpr::Fundamental(k) => match &k.inner {
            Constant::Literal(v) => Ok(*v),
            Constant::Symbolic(symbol) => {
                if let Some(resolved) = constants.get(symbol) {
                    return Ok(resolved);
                }
                match pending.get(symbol) {
                    Some(line) => {
                        let mut index: usize = 0;
                        while index < stack.len()
                            invariant
                                index <= stack@.len(),
                                forall|j: int| 0 <= j < index ==> names(stack@)[j] != symbol@,
                            ensures
                                index <= stack@.len(),
                                forall|j: int| 0 <= j < index ==> names(stack@)[j] != symbol@,
                                index < stack@.len() ==> names(stack@)[index as int] == symbol@,
                            decreases stack@.len() - index,
                        {
                            if stack[index] == *symbol {
                                break;
                            }
                            index = index + 1;
                        }
                        if index < stack.len() {
                            let mut chain: Vec<String> = Vec::new();
                            let mut j = index;
                            while j < stack.len()
                                invariant
                                    index <= j <= stack@.len(),
                                    names(chain@) == names(stack@).subrange(index as int, j as int),
                                decreases stack@.len() - j,
                            {
                                let ghost before = chain@;
                                let x = stack[j].clone();
                                chain.push(x);
                                proof {
                                    assert(chain@ == before.push(x));
                                    assert(names(chain@) =~= names(before).push(x@));
                                    assert(names(stack@)[j as int] == x@);
                                }
                                j = j + 1;
                                assert(names(chain@) =~= names(stack@).subrange(index as int, j as int));
                            }
                            let ghost before = chain@;
                            let x = symbol.clone();
                            chain.push(x);
                            proof {
                                assert(names(chain@) =~= names(before).push(x@));
                                let ns = names(stack@);
                                assert(ns[index as int] == symbol@);
                                ns.index_of_first_ensures(symbol@);
                                assert(ns.contains(symbol@));
                                assert(ns.index_of_first(symbol@) == Some(index as int));
                                assert(names(chain@) =~= ns.subrange(index as int, ns.len() as int).push(symbol@));
                            }
                            return Err(Failure::Error(SerializationErrorMessage::CyclicDependency(chain).with_span(k.span)));
                        }
                        proof {
                            assert(!names(stack@).contains(symbol@));
                            lemma_keys_contains(pending.view(), symbol@);
                            lemma_stack_room(names(stack@), assoc_keys(pending.view()), symbol@);
                            crate::table::lemma_find_key(pending.view(), symbol@);
                        }
                        let e = match pending_expr(program, line) {
                            Some(e) => e,
                            None => return Err(Failure::Error(SerializationErrorMessage::UnknownError("missing constant expression".to_owned()).with_span(k.span))),
                        };
                        let mut new_stack = stack;
                        new_stack.push(symbol.clone());
                        proof {
                            assert(names(new_stack@) =~= names(stack@).push(symbol@));
                        }
                        let res = match resolve(constants, pending, program, new_stack, e) {
                            Ok(v) => v,
                            Err(err) => return Err(err),
                        };
                        constants.insert(symbol.clone(), res);
                        Ok(res)
                    },
                    None => {
                        let valid = pending.keys();
                        Err(Failure::Error(SerializationErrorMessage::UndefinedConstant(symbol.clone(), valid).with_span(k.span)))
                    },
                }
            },
        },
        ConstantExpr::Arithmetic { left, right, operator } => {
            let l = match resolve(constants, pending, program, stack.clone(), left) {
                Ok(v) => v,
                Err(e) => return Err(e),
            };
            let r = match resolve(constants, pending, program, stack.clone(), right) {
                Ok(v) => v,
                Err(e) => return Err(e),
            };
            arith(operator.inner, l, r, current_expr.span)
        },
    }
}

/// Resolves an expression of a deferred name, resolving the deferred names it
/// uses first; `stack` holds the names being resolved.
pub fn recursively_evaluate_pending_constants(
    constants: &mut Table<u8>,
    pending: &Table<usize>,
    program: &[Spanned<Line>],
    stack: Vec<String>,
    current_expr: &Spanned<ConstantExpr>,
) -> (r: SerializeResult<u8>)
    requires
        pending_ok(program@, pending.view()),
        stack_ok(names(stack@), pending.view()),
        stack@.len() <= pending.view().len(),
        !panics(spec_resolve(old(constants).view(), program@, pending.view(), names(stack@), *current_expr).1),
    ensures
        final(constants).view() == spec_resolve(old(constants).view(), program@, pending.view(), names(stack@), *current_expr).0,
        agrees(r, spec_resolve(old(constants).view(), program@, pending.view(), names(stack@), *current_expr).1),
{
    settle(resolve(constants, pending, program, stack, current_expr))
}

fn resolve_all(
    constants: &mut Table<u8>,
    pending: &Table<usize>,
    program: &[Spanned<Line>],
) -> (r: Outcome<()>)
    requires
        pending_ok(program@, pending.view()),
    ensures
        match spec_resolve_all(old(constants).view(), program@, pending.view(), 0) {
            Ok(c) => r is Ok && final(constants).view() == c,
            Err(f) => r matches Err(e) && f == failure_view(e),
        },
{
    let n = pending.len();
    let mut k: usize = 0;
    while k < n
        invariant
            n == pending.view().len(),
            k <= n,
            pending_ok(program@, pending.view()),
            spec_resolve_all(old(constants).view(), program@, pending.view(), 0)
                == spec_resolve_all(constants.view(), program@, pending.view(), k as nat),
        decreases n - k,
    {
        let (label, line) = pending.entry(k);
        if constants.contains_key(label) {
            k = k + 1;
            continue;
        }
        proof {
            assert(assoc_keys(pending.view())[k as int] == label@);
            assert(pending.view()[k as int].1 == line);
        }
        let e = match pending_expr(program, line) {
            Some(e) => e,
            None => return Err(Failure::Error(SerializationErrorMessage::UnknownError("missing constant expression".to_owned()).with_span(Span::new(0, 0)))),
        };
        let mut stack: Vec<String> = Vec::new();
        stack.push(label.clone());
        proof {
            assert(names(stack@) =~= seq![label@]);
            assert(names(stack@).no_duplicates());
        }
        let v = match resolve(constants, pending, program, stack, e) {
            Ok(v) => v,
            Err(err) => return Err(err),
        };
        constants.insert(label.clone(), v);
        k = k + 1;
    }
    Ok(())
}

/// Resolves every deferred name, in the order the names first appeared.
pub fn evaluate_pending_constants(
    constants: &mut Table<u8>,
    pending: &Table<usize>,
    program: &[Spanned<Line>],
) -> (r: SerializeResult<()>)
    requires
        pending_ok(program@, pending.view()),
        !panics(spec_resolve_all(old(constants).view(), program@, pending.view(), 0)),
    ensures
        match spec_resolve_all(old(constants).view(), program@, pending.view(), 0) {
            Ok(c) => r is Ok && final(constants).view() == c,
            Err(f) => r matches Err(e) && f == Fault::Error(e@),
        },
{
    settle(resolve_all(constants, pending, program))
}

/// What a placement assembles to.
fn serialize_entry(ctx: &Context, program: &[Spanned<Line>], e: Placed) -> (r: Outcome<ConvertedInstruction>)
    requires
        placed_ok(program@, e),
    ensures
        outcome_agrees(r, spec_serialize_entry(ctx.spec_constants(), program@, e)),
{
    proof {
        reveal(spec_serialize_entry);
    }
    let instr = program[e.line].inner.instruction.as_ref().unwrap();
    match e.data {
        Some(j) => match data_byte_outcome(&instr.inner.detail, &instr.inner.detail.inner.operands[j], ctx) {
            Ok(b) => Ok(ConvertedInstruction::Data(b)),
            Err(err) => Err(err),
        },
        None => convert_instruction_outcome(instr, ctx),
    }
}

proof fn lemma_prepend_assoc(a: Seq<Emitted>, b: Seq<Emitted>, r: Result<Seq<Emitted>, Fault>)
    ensures
        prepend(a, prepend(b, r)) == prepend(a + b, r),
{
    if let Ok(v) = r {
        assert(a + (b + v) =~= (a + b) + v);
    }
}

/// One step of a run's output, from placement `i`: the entry, and how many
/// placements it took.
fn emit_step(ctx: &Context, program: &[Spanned<Line>], seg: &Vec<Placed>, i: usize) -> (r: Outcome<(Emitted, usize, bool)>)
    requires
        i < seg@.len(),
        forall|j: int| 0 <= j < seg@.len() ==> placed_ok(program@, #[trigger] seg@[j]),
    ensures
        match r {
            Ok((item, step, pad)) => (step == 1 || step == 2) && i + step <= seg@.len() && spec_emit_segment(ctx.spec_constants(), program@, seg@, i as nat)
                == prepend(seq![item], spec_emit_segment(ctx.spec_constants(), program@, seg@, (i + step) as nat))
                && spec_pads_segment(ctx.spec_constants(), program@, seg@, i as nat)
                == seq![pad] + spec_pads_segment(ctx.spec_constants(), program@, seg@, (i + step) as nat),
            Err(e) => spec_emit_segment(ctx.spec_constants(), program@, seg@, i as nat) == Err::<Seq<Emitted>, Fault>(failure_view(e)),
        },
{
    let ghost c = ctx.spec_constants();
    let ghost p = program@;
    let e = seg[i];
    let instr = program[e.line].inner.instruction.as_ref().unwrap();
    let conv = match serialize_entry(ctx, program, e) {
        Ok(v) => v,
        Err(err) => return Err(err),
    };
    if e.addr > 255 {
        return Err(Failure::Error(SerializationErrorMessage::MemoryLimitExceeded(e.addr).with_span(instr.inner.mnemonic.span)));
    }
    let addr = e.addr as u8;
    match conv {
        ConvertedInstruction::Code(si) => {
            let bytes = si.as_bytes();
            Ok(((addr, [(bytes[0], Some(instr.span)), (bytes[1], None)]), 1, false))
        },
        ConvertedInstruction::Data(b) => {
            if i < seg.len() - 1 {
                let n = seg[i + 1];
                if n.addr as u64 != e.addr as u64 + 1 {
                    return Err(Failure::Panic);
                }
                let next = match serialize_entry(ctx, program, n) {
                    Ok(v) => v,
                    Err(err) => return Err(err),
                };
                let nb = match next {
                    ConvertedInstruction::Data(nb) => nb,
                    ConvertedInstruction::Code(_) => return Err(Failure::Panic),
                };
                let ninstr = program[n.line].inner.instruction.as_ref().unwrap();
                Ok(((addr, [(b, Some(instr.span)), (nb, Some(ninstr.span))]), 2, false))
            } else {
                let item: Emitted = (addr, [(b, Some(instr.span)), (0u8, None)]);
                proof {
                    assert(spec_emit_segment(c, p, seg@, (i + 1) as nat) == Ok::<Seq<Emitted>, Fault>(Seq::empty()));
                    assert(seq![item] + Seq::<Emitted>::empty() =~= seq![item]);
                    assert(spec_pads_segment(c, p, seg@, (i + 1) as nat) == Seq::<bool>::empty());
                    assert(seq![true] + Seq::<bool>::empty() =~= seq![true]);
                }
                Ok((item, 1, true))
            }
        },
    }
}

/// The output of one run.
fn emit_segment(ctx: &Context, program: &[Spanned<Line>], seg: &Vec<Placed>) -> (r: Outcome<(Vec<Emitted>, Vec<bool>)>)
    requires
        forall|i: int| 0 <= i < seg@.len() ==> placed_ok(program@, #[trigger] seg@[i]),
    ensures
        match spec_emit_segment(ctx.spec_constants(), program@, seg@, 0) {
            Ok(v) => r matches Ok((out, pads)) && out@ == v && pads@ == spec_pads_segment(ctx.spec_constants(), program@, seg@, 0)
                && pads@.len() == out@.len(),
            Err(f) => r matches Err(e) && f == failure_view(e),
        },
{
    let ghost c = ctx.spec_constants();
    let ghost p = program@;
    let mut out: Vec<Emitted> = Vec::new();
    let mut pads: Vec<bool> = Vec::new();
    let mut i: usize = 0;
    assert(prepend(out@, spec_emit_segment(c, p, seg@, 0)) =~= spec_emit_segment(c, p, seg@, 0)) by {
        if let Ok(v) = spec_emit_segment(c, p, seg@, 0) {
            assert(out@ + v =~= v);
        }
    }
    while i < seg.len()
        invariant
            c == ctx.spec_constants(),
            p == program@,
            forall|j: int| 0 <= j < seg@.len() ==> placed_ok(program@, #[trigger] seg@[j]),
            spec_emit_segment(c, p, seg@, 0) == prepend(out@, spec_emit_segment(c, p, seg@, i as nat)),
            spec_pads_segment(c, p, seg@, 0) == pads@ + spec_pads_segment(c, p, seg@, i as nat),
            pads@.len() == out@.len(),
            i <= seg@.len(),
        decreases seg@.len() - i,
    {
        let (item, step, pad) = match emit_step(ctx, program, seg, i) {
            Ok(x) => x,
            Err(err) => return Err(err),
        };
        let ghost before = out@;
        let ghost pbefore = pads@;
        out.push(item);
        pads.push(pad);
        proof {
            lemma_prepend_assoc(before, seq![item], spec_emit_segment(c, p, seg@, (i + step) as nat));
            assert(before.push(item) =~= before + seq![item]);
            assert(pads@ + spec_pads_segment(c, p, seg@, (i + step) as nat)
                =~= pbefore + (seq![pad] + spec_pads_segment(c, p, seg@, (i + step) as nat)));
        }
        i = i + step;
    }
    proof {
        assert(spec_emit_segment(c, p, seg@, i as nat) == Ok::<Seq<Emitted>, Fault>(Seq::empty()));
        assert(out@ + Seq::<Emitted>::empty() =~= out@);
        assert(spec_pads_segment(c, p, seg@, i as nat) == Seq::<bool>::empty());
        assert(pads@ + Seq::<bool>::empty() =~= pads@);
    }
    Ok((out, pads))
}


/// The output of all runs, in order.
fn emit_all(ctx: &Context, program: &[Spanned<Line>], segs: &Vec<Vec<Placed>>) -> (r: Outcome<(Vec<Emitted>, Vec<bool>)>)
    requires
        forall|k: int, i: int| 0 <= k < segs@.len() && 0 <= i < segs@[k]@.len()
            ==> placed_ok(program@, #[trigger] segs@[k]@[i]),
    ensures
        match spec_emit_all(ctx.spec_constants(), program@, segs_view(segs@), 0) {
            Ok(v) => r matches Ok((out, pads)) && out@ == v && pads@ == spec_pads_all(ctx.spec_constants(), program@, segs_view(segs@), 0)
                && pads@.len() == out@.len(),
            Err(f) => r matches Err(e) && f == failure_view(e),
        },
{
    let ghost c = ctx.spec_constants();
    let ghost p = program@;
    let ghost sv = segs_view(segs@);
    let mut out: Vec<Emitted> = Vec::new();
    let mut pads: Vec<bool> = Vec::new();
    let mut k: usize = 0;
    assert(prepend(out@, spec_emit_all(c, p, sv, 0)) =~= spec_emit_all(c, p, sv, 0)) by {
        if let Ok(v) = spec_emit_all(c, p, sv, 0) {
            assert(out@ + v =~= v);
        }
    }
    while k < segs.len()
        invariant
            c == ctx.spec_constants(),
            p == program@,
            sv == segs_view(segs@),
            forall|k: int, i: int| 0 <= k < segs@.len() && 0 <= i < segs@[k]@.len()
                ==> placed_ok(program@, #[trigger] segs@[k]@[i]),
            spec_emit_all(c, p, sv, 0) == prepend(out@, spec_emit_all(c, p, sv, k as nat)),
            spec_pads_all(c, p, sv, 0) == pads@ + spec_pads_all(c, p, sv, k as nat),
            pads@.len() == out@.len(),
            k <= segs@.len(),
            sv.len() == segs@.len(),
        decreases segs@.len() - k,
    {
        let seg = &segs[k];
        proof {
            assert(sv[k as int] == seg@);
            assert forall|i: int| 0 <= i < seg@.len() implies placed_ok(program@, #[trigger] seg@[i]) by {
                assert(placed_ok(program@, segs@[k as int]@[i]));
            }
        }
        let (mut v, mut vp) = match emit_segment(ctx, program, seg) {
            Ok(v) => v,
            Err(err) => return Err(err),
        };
        let ghost before = out@;
        let ghost pbefore = pads@;
        let ghost vv = v@;
        let ghost vpv = vp@;
        out.append(&mut v);
        pads.append(&mut vp);
        proof {
            lemma_prepend_assoc(before, vv, spec_emit_all(c, p, sv, (k + 1) as nat));
            assert(spec_pads_all(c, p, sv, k as nat) == vpv + spec_pads_all(c, p, sv, (k + 1) as nat));
            assert(pads@ + spec_pads_all(c, p, sv, (k + 1) as nat) =~= pbefore + (vpv + spec_pads_all(c, p, sv, (k + 1) as nat)));
        }
        k = k + 1;
    }
    proof {
        assert(out@ + Seq::<Emitted>::empty() =~= out@);
        assert(spec_pads_all(c, p, sv, k as nat) == Seq::<bool>::empty());
        assert(pads@ + Seq::<bool>::empty() =~= pads@);
    }
    Ok((out, pads))
}

fn serialize_program_outcome(program: &[Spanned<Line>]) -> (r: Outcome<(Vec<Emitted>, Vec<bool>)>)
    requires
    ensures
        match spec_serialize_program(program@) {
            Ok(v) => r matches Ok((out, pads)) && out@ == v && pads@ == spec_serialize_pads(program@) && pads@.len() == out@.len(),
            Err(f) => r matches Err(e) && f == failure_view(e),
        },
{
    let mut layout = match layout_program(program) {
        Ok(l) => l,
        Err(e) => return Err(e),
    };
    let n = program.len();
    proof {
        assert(program@.len() == n);
        lemma_layout_inv(program@, program@.len());
    }
    let ghost st = layout.view();
    layout.close_run();
    let Layout { mut constants, pending, segments, .. } = layout;
    proof {
        assert(segs_view(segments@) == st.segments.push(st.current));
        assert forall|k: int, i: int| 0 <= k < segments@.len() && 0 <= i < segments@[k]@.len()
            implies placed_ok(program@, #[trigger] segments@[k]@[i]) by {
            assert(segs_view(segments@)[k] == segments@[k]@);
            if k < st.segments.len() {
                assert(placed_ok(program@, st.segments[k][i]));
            } else {
                assert(placed_ok(program@, st.current[i]));
            }
        }
    }
    match resolve_all(&mut constants, &pending, program) {
        Ok(()) => {},
        Err(e) => return Err(e),
    }
    let ctx = Context::from_table(constants);
    emit_all(&ctx, program, &segments)
}

/// Assembles a program: every address where output starts, with the two
/// bytes placed there and the spans of the statements they come from.
pub fn serialize_program(program: &[Spanned<Line>]) -> (r: SerializeResult<Vec<Emitted>>)
    requires
        !panics(spec_serialize_program(program@)),
    ensures
        match spec_serialize_program(program@) {
            Ok(v) => r matches Ok(out) && out@ == v,
            Err(f) => r matches Err(e) && f == Fault::Error(e@),
        },
{
    match settle(serialize_program_outcome(program)) {
        Ok((out, _)) => Ok(out),
        Err(e) => Err(e),
    }
}

/// Whether assembling the program panics: a data byte is followed in its run
/// by code, or the addresses are counted past `u32::MAX`.
pub fn assembly_panics(program: &[Spanned<Line>]) -> (r: bool)
    requires
    ensures
        r == panics(spec_serialize_program(program@)),
{
    match serialize_program_outcome(program) {
        Err(Failure::Panic) => true,
        _ => false,
    }
}

/// The memory image that output entries give, written in order over zeros:
/// each entry writes its first byte at its address and its second byte just
/// after, if that is still in memory and is not a filler (`pads`): a DATA
/// operand gives one byte, and writes nothing after it.
pub open spec fn spec_image(es: Seq<Emitted>, pads: Seq<bool>) -> Seq<u8>
    decreases es.len(),
{
    if es.len() == 0 {
        Seq::new(256, |i: int| 0u8)
    } else {
        let prev = spec_image(es.drop_last(), pads.drop_last());
        let (addr, cells) = es.last();
        let first = prev.update(addr as int, cells[0].0);
        if addr < 255 && !pads.last() {
            first.update(addr + 1, cells[1].0)
        } else {
            first
        }
    }
}

proof fn lemma_image_len(es: Seq<Emitted>, pads: Seq<bool>)
    ensures
        spec_image(es, pads).len() == 256,
    decreases es.len(),
{
    if es.len() > 0 {
        lemma_image_len(es.drop_last(), pads.drop_last());
    }
}

/// Assembles a program into a 256-byte memory image.
pub fn serialize_program_to_binary(program: &[Spanned<Line>]) -> (r: SerializeResult<[u8; 256]>)
    requires
        !panics(spec_serialize_program(program@)),
    ensures
        match spec_serialize_program(program@) {
            Ok(v) => r matches Ok(image) && image@ == spec_image(v, spec_serialize_pads(program@)),
            Err(f) => r matches Err(e) && f == Fault::Error(e@),
        },
{
    let (serialized, pads) = match settle(serialize_program_outcome(program)) {
        Ok(v) => v,
        Err(e) => return Err(e),
    };
    let mut result = [0u8; 256];
    let mut k: usize = 0;
    proof {
        assert(serialized@.take(0) =~= Seq::<Emitted>::empty());
        assert(result@ =~= spec_image(Seq::<Emitted>::empty(), pads@.take(0)));
    }
    while k < serialized.len()
        invariant
            k <= serialized@.len(),
            pads@.len() == serialized@.len(),
            result@ == spec_image(serialized@.take(k as int), pads@.take(k as int)),
        decreases serialized@.len() - k,
    {
        let (addr, bytes) = serialized[k];
        let pad = pads[k];
        proof {
            assert(serialized@.take(k + 1).drop_last() =~= serialized@.take(k as int));
            assert(pads@.take(k + 1).drop_last() =~= pads@.take(k as int));
            lemma_image_len(serialized@.take(k as int), pads@.take(k as int));
        }
        result[addr as usize] = bytes[0].0;
        if addr < 255 && !pad {
            result[addr as usize + 1] = bytes[1].0;
        }
        k = k + 1;
    }
    proof {
        assert(serialized@.take(serialized@.len() as int) =~= serialized@);
        assert(pads@.take(pads@.len() as int) =~= pads@);
    }
    Ok(result)
}

/// A span lies in the text and starts and ends between characters.
pub open spec fn span_ok(text: Seq<u8>, sp: Span) -> bool {
    &&& sp.start <= sp.end <= text.len()
    &&& is_char_boundary(text, sp.start as int)
    &&& is_char_boundary(text, sp.end as int)
}

/// The source text that a span covers.
pub open spec fn span_text(text: Seq<u8>, sp: Span) -> Seq<char> {
    decode_utf8(text.subrange(sp.start as int, sp.end as int))
}

/// Every statement of the program has a span in the text.
pub open spec fn text_spans_ok(text: Seq<u8>, p: Seq<Spanned<Line>>) -> bool {
    forall|i: int| 0 <= i < p.len() && (#[trigger] p[i]).inner.instruction is Some
        ==> span_ok(text, p[i].inner.instruction.unwrap().span)
}

/// An output entry names the statement that starts it, and any second one,
/// by spans in the text.
pub open spec fn entry_ok(text: Seq<u8>, e: Emitted) -> bool {
    &&& e.1[0].1 matches Some(sp) && span_ok(text, sp)
    &&& e.1[1].1 matches Some(sp) ==> span_ok(text, sp)
}

pub open spec fn entries_ok(text: Seq<u8>, es: Seq<Emitted>) -> bool {
    forall|k: int| 0 <= k < es.len() ==> entry_ok(text, #[trigger] es[k])
}

/// One entry of the listing: the address and the two bytes in hexadecimal,
/// with the source of the statement as a comment, and the source of a second
/// data byte's statement on a line of its own.
pub open spec fn listing_entry(text: Seq<u8>, e: Emitted) -> Seq<char> {
    let first = hex2(e.0) + seq![':', ' '] + hex2(e.1[0].0) + hex2(e.1[1].0) + seq![' ', '/', '/', ' ']
        + span_text(text, e.1[0].1.unwrap()) + seq!['\n'];
    match e.1[1].1 {
        Some(sp) => first + Seq::new(9, |i: int| ' ') + seq!['/', '/', ' '] + span_text(text, sp) + seq!['\n'],
        None => first,
    }
}

/// The listing of all entries, in order.
pub open spec fn spec_listing(text: Seq<u8>, es: Seq<Emitted>) -> Seq<char>
    decreases es.len(),
{
    if es.len() == 0 {
        Seq::empty()
    } else {
        spec_listing(text, es.drop_last()) + listing_entry(text, es.last())
    }
}

proof fn lemma_emit_segment_ok(text: Seq<u8>, c: Seq<(Seq<char>, u8)>, p: Seq<Spanned<Line>>, seg: Seq<Placed>, i: nat)
    requires
        text_spans_ok(text, p),
        forall|j: int| 0 <= j < seg.len() ==> placed_ok(p, #[trigger] seg[j]),
    ensures
        spec_emit_segment(c, p, seg, i) matches Ok(v) ==> entries_ok(text, v),
    decreases seg.len() - i,
{
    if i < seg.len() {
        lemma_emit_segment_ok(text, c, p, seg, i + 1);
        if i + 2 <= seg.len() {
            lemma_emit_segment_ok(text, c, p, seg, i + 2);
        }
        let e = seg[i as int];
        assert(placed_ok(p, e));
        assert(p[e.line as int].inner.instruction is Some);
        if i + 1 < seg.len() {
            assert(placed_ok(p, seg[i + 1int]));
            assert(p[seg[i + 1int].line as int].inner.instruction is Some);
        }
        if let Ok(v) = spec_emit_segment(c, p, seg, i) {
            assert forall|k: int| 0 <= k < v.len() implies entry_ok(text, #[trigger] v[k]) by {
                if k > 0 {
                    if let Ok(rest) = spec_emit_segment(c, p, seg, i + 1) {
                        if v == seq![v[0]] + rest {
                            assert(v[k] == rest[k - 1]);
                        }
                    }
                    if let Ok(rest) = spec_emit_segment(c, p, seg, i + 2) {
                        if v == seq![v[0]] + rest {
                            assert(v[k] == rest[k - 1]);
                        }
                    }
                }
            }
        }
    }
}

proof fn lemma_emit_all_ok(text: Seq<u8>, c: Seq<(Seq<char>, u8)>, p: Seq<Spanned<Line>>, segs: Seq<Seq<Placed>>, k: nat)
    requires
        text_spans_ok(text, p),
        forall|m: int, j: int| 0 <= m < segs.len() && 0 <= j < segs[m].len() ==> placed_ok(p, #[trigger] segs[m][j]),
    ensures
        spec_emit_all(c, p, segs, k) matches Ok(v) ==> entries_ok(text, v),
    decreases segs.len() - k,
{
    if k < segs.len() {
        lemma_emit_all_ok(text, c, p, segs, k + 1);
        assert forall|j: int| 0 <= j < segs[k as int].len() implies placed_ok(p, #[trigger] segs[k as int][j]) by {
            assert(placed_ok(p, segs[k as int][j]));
        }
        lemma_emit_segment_ok(text, c, p, segs[k as int], 0);
        if let Ok(v) = spec_emit_all(c, p, segs, k) {
            if let Ok(head) = spec_emit_segment(c, p, segs[k as int], 0) {
                if let Ok(rest) = spec_emit_all(c, p, segs, k + 1) {
                    assert(v == head + rest);
                    assert forall|m: int| 0 <= m < v.len() implies entry_ok(text, #[trigger] v[m]) by {
                        if m < head.len() {
                            assert(v[m] == head[m]);
                        } else {
                            assert(v[m] == rest[m - head.len()]);
                        }
                    }
                }
            }
        }
    }
}

/// Every entry of an assembled program names its statements by spans in
/// the text, when every statement has one.
proof fn lemma_serialize_ok(text: Seq<u8>, p: Seq<Spanned<Line>>)
    requires
        text_spans_ok(text, p),
        p.len() <= usize::MAX,
    ensures
        spec_serialize_program(p) matches Ok(v) ==> entries_ok(text, v),
{
    lemma_layout_inv(p, p.len());
    if let Ok(st) = spec_layout(p, p.len()) {
        if let Ok(c) = spec_resolve_all(st.constants, p, st.pending, 0) {
            let segs = st.segments.push(st.current);
            assert forall|m: int, j: int| 0 <= m < segs.len() && 0 <= j < segs[m].len()
                implies placed_ok(p, #[trigger] segs[m][j]) by {
                if m < st.segments.len() {
                    assert(placed_ok(p, st.segments[m][j]));
                } else {
                    assert(placed_ok(p, st.current[j]));
                }
            }
            lemma_emit_all_ok(text, c, p, segs, 0);
        }
    }
}

/// The text that a span covers.
fn span_slice<'a>(text: &'a str, sp: Span) -> (r: &'a str)
    requires
        span_ok(encode_utf8(text@), sp),
    ensures
        r@ == span_text(encode_utf8(text@), sp),
{
    let ghost bytes = encode_utf8(text@);
    proof {
        vstd::utf8::encode_utf8_valid_utf8(text@);
        vstd::utf8::valid_utf8_split(bytes, sp.start as int);
    }
    let (_, rest) = text.split_at(sp.start);
    let ghost rb = encode_utf8(rest@);
    proof {
        assert(rb =~= bytes.subrange(sp.start as int, bytes.len() as int));
        let off = (sp.end - sp.start) as int;
        if sp.end < bytes.len() {
            vstd::utf8::is_char_boundary_iff_not_is_continuation_byte(bytes, sp.end as int);
            vstd::utf8::is_char_boundary_iff_not_is_continuation_byte(rb, off);
            assert(rb[off] == bytes[sp.end as int]);
        } else {
            vstd::utf8::is_char_boundary_start_end_of_seq(rb);
        }
    }
    let (piece, _) = rest.split_at(sp.end - sp.start);
    proof {
        assert(encode_utf8(piece@) =~= bytes.subrange(sp.start as int, sp.end as int));
        vstd::utf8::encode_utf8_decode_utf8(piece@);
    }
    piece
}

/// Appends one entry of the listing.
fn push_listing_entry(out: &mut String, text: &str, e: Emitted)
    requires
        entry_ok(encode_utf8(text@), e),
    ensures
        final(out)@ == old(out)@ + listing_entry(encode_utf8(text@), e),
{
    let (addr, cells) = e;
    push_hex2(out, addr);
    push_char(out, ':');
    push_char(out, ' ');
    push_hex2(out, cells[0].0);
    push_hex2(out, cells[1].0);
    push_char(out, ' ');
    push_char(out, '/');
    push_char(out, '/');
    push_char(out, ' ');
    let sp = cells[0].1.unwrap();
    push_str(out, span_slice(text, sp));
    push_char(out, '\n');
    let ghost first = out@;
    assert(first =~= old(out)@ + (hex2(e.0) + seq![':', ' '] + hex2(e.1[0].0) + hex2(e.1[1].0) + seq![' ', '/', '/', ' ']
        + span_text(encode_utf8(text@), e.1[0].1.unwrap()) + seq!['\n']));
    if let Some(sp2) = cells[1].1 {
        let mut n: usize = 0;
        while n < 9
            invariant
                n <= 9,
                out@ == first + Seq::new(n as nat, |i: int| ' '),
            decreases 9 - n,
        {
            push_char(out, ' ');
            proof {
                assert(Seq::new(n as nat, |i: int| ' ').push(' ') =~= Seq::new((n + 1) as nat, |i: int| ' '));
            }
            n = n + 1;
        }
        push_char(out, '/');
        push_char(out, '/');
        push_char(out, ' ');
        push_str(out, span_slice(text, sp2));
        push_char(out, '\n');
        assert(out@ =~= old(out)@ + listing_entry(encode_utf8(text@), e));
    }
}

/// Assembles a program into a listing: one line per output entry, with the
/// address, the two bytes in hexadecimal and the source of the statement.
pub fn serialize_program_from_text_to_text(program: &[Spanned<Line>], program_text: &str) -> (r: SerializeResult<String>)
    requires
        !panics(spec_serialize_program(program@)),
        text_spans_ok(encode_utf8(program_text@), program@),
    ensures
        match spec_serialize_program(program@) {
            Ok(v) => r matches Ok(s) && s@ == spec_listing(encode_utf8(program_text@), v),
            Err(f) => r matches Err(e) && f == Fault::Error(e@),
        },
{
    let ghost text = encode_utf8(program_text@);
    let n = program.len();
    proof {
        assert(program@.len() == n);
        lemma_serialize_ok(text, program@);
    }
    let serialized = match serialize_program(program) {
        Ok(v) => v,
        Err(e) => return Err(e),
    };
    let mut result = String::new();
    let mut k: usize = 0;
    proof {
        assert(serialized@.take(0) =~= Seq::<Emitted>::empty());
    }
    while k < serialized.len()
        invariant
            k <= serialized@.len(),
            text == encode_utf8(program_text@),
            entries_ok(text, serialized@),
            result@ == spec_listing(text, serialized@.take(k as int)),
        decreases serialized@.len() - k,
    {
        let e = serialized[k];
        proof {
            assert(serialized@.take(k + 1).drop_last() =~= serialized@.take(k as int));
            assert(entry_ok(text, serialized@[k as int]));
        }
        push_listing_entry(&mut result, program_text, e);
        k = k + 1;
    }
    proof {
        assert(serialized@.take(serialized@.len() as int) =~= serialized@);
    }
    Ok(result)
}

/// Constant expressions wrap modulo 256: sums, differences and products of
/// bytes are taken modulo 256, quotients and remainders are those of the
/// bytes when the divisor is not zero, and a zero divisor is an error at the
/// expression, not a panic.
pub proof fn lemma_arith_wraps(op: ArithmeticOperator, l: u8, r: u8, sp: Span)
    ensures
        op == ArithmeticOperator::Add ==> spec_arith(op, l, r, sp) == Ok::<u8, Fault>(((l + r) % 256) as u8),
        op == ArithmeticOperator::Subtract ==> spec_arith(op, l, r, sp) == Ok::<u8, Fault>(((l - r) % 256) as u8),
        op == ArithmeticOperator::Multiply ==> spec_arith(op, l, r, sp) == Ok::<u8, Fault>(((l * r) % 256) as u8),
        r != 0 && op == ArithmeticOperator::Divide ==> spec_arith(op, l, r, sp) == Ok::<u8, Fault>((l / r) as u8),
        r != 0 && op == ArithmeticOperator::Modulo ==> spec_arith(op, l, r, sp) == Ok::<u8, Fault>((l % r) as u8),
        r == 0 && (op == ArithmeticOperator::Divide || op == ArithmeticOperator::Modulo)
            ==> spec_arith(op, l, r, sp) == Err::<u8, Fault>(division_by_zero(sp)),
{
    assert((l - r + 256) % 256 == (l - r) % 256) by (nonlinear_arith);
}

/// A name bound by `bind_all` has the bound value.
proof fn lemma_bind_all_get(c: Seq<(Seq<char>, u8)>, names: Seq<Seq<char>>, v: u8, q: Seq<char>)
    ensures
        names.contains(q) ==> assoc_get(bind_all(c, names, v), q) == Some(v),
        !names.contains(q) ==> assoc_get(bind_all(c, names, v), q) == assoc_get(c, q),
    decreases names.len(),
{
    if names.len() > 0 {
        lemma_bind_all_get(c, names.drop_last(), v, q);
        crate::table::lemma_assoc_insert_get(bind_all(c, names.drop_last(), v), names.last(), v, q);
        if names.contains(q) && q != names.last() {
            let i = choose|i: int| 0 <= i < names.len() && names[i] == q;
            assert(names.drop_last()[i] == q);
        }
        if names.drop_last().contains(q) {
            let i = choose|i: int| 0 <= i < names.drop_last().len() && names.drop_last()[i] == q;
            assert(names[i] == q);
        }
    }
}

/// A CONST statement places nothing and moves nothing: the runs, the
/// placement address and what decides the alignment of the next statement
/// stay as they are, and no name gets an address.
pub proof fn lemma_const_places_nothing(st: LayoutState, line: usize, instr: Spanned<Instruction>)
    requires
        is_mnemonic(instr.inner.mnemonic.inner@, "CONST"),
        layout_instruction(st, line, instr) is Ok,
    ensures
        ({
            let st2 = layout_instruction(st, line, instr)->Ok_0;
            &&& st2.current == st.current
            &&& st2.segments == st.segments
            &&& st2.addr == st.addr
            &&& st2.constants == st.constants
            &&& st2.waiting.len() == 0
            &&& st2.prev_was_data == st.prev_was_data
            &&& (st2.just_set is None) == (st.just_set is None)
        }),
{
}

/// A CONST statement needs a name: without one waiting it is refused.
pub proof fn lemma_const_needs_name(st: LayoutState, line: usize, instr: Spanned<Instruction>)
    requires
        is_mnemonic(instr.inner.mnemonic.inner@, "CONST"),
        instr.inner.detail.inner.operands@.len() == 1,
        instr.inner.detail.inner.output is None,
        instr.inner.detail.inner.operands@[0].inner.core is Constant,
        st.waiting.len() == 0,
    ensures
        layout_instruction(st, line, instr)
            == Err::<LayoutState, Fault>(err(MessageView::UnlabeledConstant(flatten_span(st.just_set)), instr.span)),
{
}

/// DATA packs its bytes: one per operand, at consecutive addresses from the
/// current one, in the current run; the names waiting get the address of the
/// first byte.
pub proof fn lemma_data_packed(st: LayoutState, line: usize, instr: Spanned<Instruction>, q: Seq<char>)
    requires
        is_mnemonic(instr.inner.mnemonic.inner@, "DATA"),
        instr.inner.detail.inner.operands@.len() > 0,
        layout_instruction(st, line, instr) is Ok,
    ensures
        ({
            let st2 = layout_instruction(st, line, instr)->Ok_0;
            let n = instr.inner.detail.inner.operands@.len();
            &&& st2.current == st.current + data_run(st.addr, line, n)
            &&& st2.addr == st.addr + n
            &&& st2.segments == st.segments
            &&& st.waiting.contains(q) ==> assoc_get(st2.constants, q) == Some(st.addr as u8)
        }),
{
    reveal_strlit("DATA");
    reveal_strlit("CONST");
    assert("DATA"@.len() != "CONST"@.len());
    lemma_bind_all_get(st.constants, st.waiting, st.addr as u8, q);
}

/// No instruction's mnemonic is CONST or DATA.
proof fn lemma_code_not_pseudo(m: Seq<char>)
    requires
        is_code_mnemonic(m),
    ensures
        !is_mnemonic(m, "CONST"),
        !is_mnemonic(m, "DATA"),
{
    reveal_strlit("CONST");
    reveal_strlit("DATA");
    reveal_strlit("MOV");
    assert("MOV"@[0] != "CONST"@[0] && "MOV"@[0] != "DATA"@[0]);
    reveal_strlit("HALT");
    assert("HALT"@[0] != "CONST"@[0] && "HALT"@[0] != "DATA"@[0]);
    reveal_strlit("NOP");
    assert("NOP"@[0] != "CONST"@[0] && "NOP"@[0] != "DATA"@[0]);
    reveal_strlit("ADDI");
    assert("ADDI"@[0] != "CONST"@[0] && "ADDI"@[0] != "DATA"@[0]);
    reveal_strlit("ADDF");
    assert("ADDF"@[0] != "CONST"@[0] && "ADDF"@[0] != "DATA"@[0]);
    reveal_strlit("AND");
    assert("AND"@[0] != "CONST"@[0] && "AND"@[0] != "DATA"@[0]);
    reveal_strlit("OR");
    assert("OR"@[0] != "CONST"@[0] && "OR"@[0] != "DATA"@[0]);
    reveal_strlit("XOR");
    assert("XOR"@[0] != "CONST"@[0] && "XOR"@[0] != "DATA"@[0]);
    reveal_strlit("ROT");
    assert("ROT"@[0] != "CONST"@[0] && "ROT"@[0] != "DATA"@[0]);
    reveal_strlit("JMP");
    assert("JMP"@[0] != "CONST"@[0] && "JMP"@[0] != "DATA"@[0]);
    reveal_strlit("JMPEQ");
    assert("JMPEQ"@[0] != "CONST"@[0] && "JMPEQ"@[0] != "DATA"@[0]);
    reveal_strlit("JMPNE");
    assert("JMPNE"@[0] != "CONST"@[0] && "JMPNE"@[0] != "DATA"@[0]);
    reveal_strlit("JMPGE");
    assert("JMPGE"@[0] != "CONST"@[0] && "JMPGE"@[0] != "DATA"@[0]);
    reveal_strlit("JMPLE");
    assert("JMPLE"@[0] != "CONST"@[0] && "JMPLE"@[0] != "DATA"@[0]);
    reveal_strlit("JMPGT");
    assert("JMPGT"@[0] != "CONST"@[0] && "JMPGT"@[0] != "DATA"@[0]);
    reveal_strlit("JMPLT");
    assert("JMPLT"@[0] != "CONST"@[0] && "JMPLT"@[0] != "DATA"@[0]);
}

/// A code statement right after DATA, with no explicit address between,
/// starts a new run at the next even address; the names waiting get
/// that address.
pub proof fn lemma_code_aligned_after_data(st: LayoutState, line: usize, instr: Spanned<Instruction>, q: Seq<char>)
    requires
        is_code_mnemonic(instr.inner.mnemonic.inner@),
        st.prev_was_data,
        st.just_set is None,
        layout_instruction(st, line, instr) is Ok,
    ensures
        ({
            let st2 = layout_instruction(st, line, instr)->Ok_0;
            let a = spec_align(st.addr);
            &&& a % 2 == 0
            &&& st.addr <= a <= st.addr + 1
            &&& st2.segments == st.segments.push(st.current)
            &&& st2.current == seq![Placed { addr: a as u32, line, data: None }]
            &&& st2.addr == a + 2
            &&& st.waiting.contains(q) ==> assoc_get(st2.constants, q) == Some(a as u8)
        }),
{
    lemma_code_not_pseudo(instr.inner.mnemonic.inner@);
    let a = spec_align(st.addr);
    lemma_bind_all_get(st.constants, st.waiting, a as u8, q);
    assert(Seq::<Placed>::empty().push(Placed { addr: a as u32, line, data: None }) =~= seq![Placed { addr: a as u32, line, data: None }]);
}

/// A placement without its source line.
pub open spec fn unlined(e: Placed) -> Placed {
    Placed { line: 0, ..e }
}

/// A run of placements without their source lines.
pub open spec fn unlined_run(s: Seq<Placed>) -> Seq<Placed> {
    s.map_values(|e: Placed| unlined(e))
}

/// What the first pass has placed and bound: the state without the lines of
/// the placements and without the CONST statements still to evaluate.
pub open spec fn layout_shape(st: LayoutState) -> LayoutState {
    LayoutState {
        pending: Seq::empty(),
        segments: st.segments.map_values(|s: Seq<Placed>| unlined_run(s)),
        current: unlined_run(st.current),
        ..st
    }
}

/// The shape of a result of the first pass; an error is kept as it is.
pub open spec fn layout_result_shape(r: Result<LayoutState, Fault>) -> Result<LayoutState, Fault> {
    match r {
        Ok(st) => Ok(layout_shape(st)),
        Err(f) => Err(f),
    }
}

/// A line that names a CONST statement with one constant operand.
pub open spec fn is_named_const_line(l: Line) -> bool {
    &&& l.annotation matches Some(a) && a.inner is Label
    &&& l.instruction matches Some(i) && {
        &&& is_mnemonic(i.inner.mnemonic.inner@, "CONST")
        &&& i.inner.detail.inner.operands@.len() == 1
        &&& i.inner.detail.inner.output is None
        &&& i.inner.detail.inner.operands@[0].inner.core is Constant
    }
}

/// A line whose statement binds the names waiting before it: any statement
/// but a DATA statement without operands.
pub open spec fn binds_waiting_names(l: Line) -> bool {
    l.instruction matches Some(i) && !(is_mnemonic(i.inner.mnemonic.inner@, "DATA")
        && i.inner.detail.inner.operands@.len() == 0)
}

proof fn lemma_unlined_push(s: Seq<Placed>, e: Placed)
    ensures
        unlined_run(s.push(e)) == unlined_run(s).push(unlined(e)),
{
    assert(unlined_run(s.push(e)) =~= unlined_run(s).push(unlined(e)));
}

proof fn lemma_segments_push(segs: Seq<Seq<Placed>>, s: Seq<Placed>)
    ensures
        segs.push(s).map_values(|x: Seq<Placed>| unlined_run(x))
            == segs.map_values(|x: Seq<Placed>| unlined_run(x)).push(unlined_run(s)),
{
    assert(segs.push(s).map_values(|x: Seq<Placed>| unlined_run(x))
        =~= segs.map_values(|x: Seq<Placed>| unlined_run(x)).push(unlined_run(s)));
}

proof fn lemma_unlined_data(s: Seq<Placed>, t: Seq<Placed>, addr: int, line: usize, line2: usize, n: nat)
    requires
        unlined_run(s) == unlined_run(t),
    ensures
        unlined_run(s + data_run(addr, line, n)) == unlined_run(t + data_run(addr, line2, n)),
{
    assert(s.len() == unlined_run(s).len());
    assert(t.len() == unlined_run(t).len());
    assert forall|i: int| 0 <= i < s.len() implies unlined(#[trigger] s[i]) == unlined(t[i]) by {
        assert(unlined_run(s)[i] == unlined_run(t)[i]);
        assert(unlined_run(s)[i] == unlined(s[i]));
        assert(unlined_run(t)[i] == unlined(t[i]));
    }
    assert(unlined_run(s + data_run(addr, line, n)) =~= unlined_run(t + data_run(addr, line2, n)));
}

/// The first pass over a statement sees neither the line of the statement
/// nor the CONST statements waiting to be evaluated.
proof fn lemma_layout_instruction_shape(st: LayoutState, st2: LayoutState, line: usize, line2: usize, instr: Spanned<Instruction>)
    requires
        layout_shape(st) == layout_shape(st2),
    ensures
        layout_result_shape(layout_instruction(st, line, instr))
            == layout_result_shape(layout_instruction(st2, line2, instr)),
{
    let a = layout_shape(st);
    assert(st.waiting == st2.waiting && st.constants == st2.constants && st.addr == st2.addr);
    assert(st.just_set == st2.just_set && st.prev_was_data == st2.prev_was_data);
    assert(unlined_run(st.current) == unlined_run(st2.current));
    let m = instr.inner.mnemonic.inner@;
    let n = instr.inner.detail.inner.operands@.len();
    if is_mnemonic(m, "CONST") {
        if layout_instruction(st, line, instr) is Ok {
            assert(layout_result_shape(layout_instruction(st, line, instr))
                =~= layout_result_shape(layout_instruction(st2, line2, instr)));
        }
    } else if is_mnemonic(m, "DATA") {
        lemma_unlined_data(st.current, st2.current, st.addr, line, line2, n);
        if layout_instruction(st, line, instr) is Ok {
            assert(layout_result_shape(layout_instruction(st, line, instr))
                =~= layout_result_shape(layout_instruction(st2, line2, instr)));
        }
    } else if is_code_mnemonic(m) {
        let e = Placed { addr: spec_align(st.addr) as u32, line, data: None };
        let e2 = Placed { addr: spec_align(st.addr) as u32, line: line2, data: None };
        let f = Placed { addr: st.addr as u32, line, data: None };
        let f2 = Placed { addr: st.addr as u32, line: line2, data: None };
        assert(unlined(e) == unlined(e2));
        assert(unlined(f) == unlined(f2));
        lemma_unlined_push(Seq::empty(), e);
        lemma_unlined_push(Seq::empty(), e2);
        lemma_unlined_push(st.current, f);
        lemma_unlined_push(st2.current, f2);
        lemma_segments_push(st.segments, st.current);
        lemma_segments_push(st2.segments, st2.current);
        assert(unlined_run(Seq::<Placed>::empty()) =~= Seq::<Placed>::empty());
        if layout_instruction(st, line, instr) is Ok {
            assert(layout_result_shape(layout_instruction(st, line, instr))
                =~= layout_result_shape(layout_instruction(st2, line2, instr)));
        }
    }
}

/// The first pass over a line sees neither its index nor the CONST
/// statements waiting to be evaluated.
proof fn lemma_layout_line_shape(st: LayoutState, st2: LayoutState, line: usize, line2: usize, l: Line)
    requires
        layout_shape(st) == layout_shape(st2),
    ensures
        layout_result_shape(layout_line(st, line, l)) == layout_result_shape(layout_line(st2, line2, l)),
{
    let a = layout_annotation(st, l.annotation);
    let a2 = layout_annotation(st2, l.annotation);
    assert(st.waiting == st2.waiting && st.addr == st2.addr);
    assert(unlined_run(st.current) == unlined_run(st2.current));
    lemma_segments_push(st.segments, st.current);
    lemma_segments_push(st2.segments, st2.current);
    assert(unlined_run(Seq::<Placed>::empty()) =~= Seq::<Placed>::empty());
    assert(layout_shape(a) =~= layout_shape(a2));
    match l.instruction {
        Some(i) => lemma_layout_instruction_shape(a, a2, line, line2, i),
        None => {},
    }
}

/// The first pass over the first `n` lines reads no line after them.
proof fn lemma_layout_prefix(p: Seq<Spanned<Line>>, q: Seq<Spanned<Line>>, n: nat)
    requires
        n <= p.len(),
        n <= q.len(),
        forall|i: int| 0 <= i < n ==> p[i] == q[i],
    ensures
        spec_layout(p, n) == spec_layout(q, n),
    decreases n,
{
    if n > 0 {
        lemma_layout_prefix(p, q, (n - 1) as nat);
    }
}

/// A named CONST statement right after a statement that binds the waiting
/// names leaves the shape of the first pass as it was.
proof fn lemma_const_line_shape(st: LayoutState, line: usize, l: Line, line2: usize, c: Line)
    requires
        binds_waiting_names(l),
        is_named_const_line(c),
        layout_line(st, line, l) is Ok,
    ensures
        layout_result_shape(layout_line(layout_line(st, line, l)->Ok_0, line2, c))
            == layout_result_shape(layout_line(st, line, l)),
{
    reveal_strlit("DATA");
    reveal_strlit("CONST");
    assert("DATA"@.len() != "CONST"@.len());
    let st1 = layout_line(st, line, l)->Ok_0;
    let i = l.instruction->Some_0;
    let m = i.inner.mnemonic.inner@;
    if is_code_mnemonic(m) {
        lemma_code_not_pseudo(m);
    }
    assert(st1.waiting.len() == 0);
    assert(!(st1.just_set matches Some(Some(_))));
    let ci = c.instruction->Some_0;
    assert(layout_line(st1, line2, c) is Ok);
    assert(layout_shape(layout_line(st1, line2, c)->Ok_0) =~= layout_shape(st1));
}

/// A CONST statement takes no room and moves nothing: a named CONST line
/// put into a program right after a line whose statement binds the names
/// waiting before it (any statement but a DATA statement without operands)
/// leaves the first pass as it was: the same error, or the same
/// placements at the same addresses, in the same runs, and the same names
/// bound to the same addresses.
pub proof fn lemma_const_line_moves_nothing(p: Seq<Spanned<Line>>, j: nat, c: Spanned<Line>)
    requires
        j < p.len(),
        binds_waiting_names(p[j as int].inner),
        is_named_const_line(c.inner),
    ensures
        layout_result_shape(spec_layout(p.insert((j + 1) as int, c), p.len() + 1))
            == layout_result_shape(spec_layout(p, p.len())),
{
    let q = p.insert((j + 1) as int, c);
    lemma_layout_prefix(p, q, j + 1);
    assert(q[j as int] == p[j as int]);
    assert(q[(j + 1) as int] == c);
    match spec_layout(p, j) {
        Err(f) => {},
        Ok(st) => {
            if layout_line(st, j as usize, p[j as int].inner) is Ok {
                lemma_const_line_shape(st, j as usize, p[j as int].inner, (j + 1) as usize, c.inner);
            }
        },
    }
    lemma_const_line_rest(p, j, c, j + 1);
}

/// The lines after an inserted CONST line are laid out alike.
proof fn lemma_const_line_rest(p: Seq<Spanned<Line>>, j: nat, c: Spanned<Line>, k: nat)
    requires
        j + 1 <= k <= p.len(),
        layout_result_shape(spec_layout(p.insert((j + 1) as int, c), k + 1)) == layout_result_shape(spec_layout(p, k)),
    ensures
        layout_result_shape(spec_layout(p.insert((j + 1) as int, c), p.len() + 1))
            == layout_result_shape(spec_layout(p, p.len())),
    decreases p.len() - k,
{
    if k < p.len() {
        let q = p.insert((j + 1) as int, c);
        assert(q[(k + 1) as int] == p[k as int]);
        match (spec_layout(q, k + 1), spec_layout(p, k)) {
            (Ok(a), Ok(b)) => lemma_layout_line_shape(a, b, (k + 1) as usize, k as usize, p[k as int].inner),
            _ => {},
        }
        lemma_const_line_rest(p, j, c, k + 1);
    }
}

/// Whether every statement of the program has a span in the text that
/// starts and ends between characters.
pub fn spans_within(program: &[Spanned<Line>], text: &str) -> (r: bool)
    ensures
        r == text_spans_ok(encode_utf8(text@), program@),
{
    let n = program.len();
    let len = text.as_bytes().len();
    let mut k: usize = 0;
    while k < n
        invariant
            n == program@.len(),
            len == encode_utf8(text@).len(),
            k <= n,
            forall|i: int| 0 <= i < k && (#[trigger] program@[i]).inner.instruction is Some
                ==> span_ok(encode_utf8(text@), program@[i].inner.instruction.unwrap().span),
        decreases n - k,
    {
        match &program[k].inner.instruction {
            Some(i) => {
                let sp = i.span;
                if !(sp.start <= sp.end && sp.end <= len && text.is_char_boundary(sp.start) && text.is_char_boundary(sp.end)) {
                    return false;
                }
            },
            None => {},
        }
        k = k + 1;
    }
    true
}

} // verus!
