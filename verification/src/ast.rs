use vstd::prelude::*;

use crate::common::Register;

verus! {

/// A range of byte offsets into the source text.
#[derive(Debug, Clone, Copy, PartialEq, Eq, Structural)]
pub struct Span {
    pub start: usize,
    pub end: usize,
}

/// The smallest span that covers both spans.
pub open spec fn span_union(a: Span, b: Span) -> Span {
    Span {
        start: if a.start <= b.start { a.start } else { b.start },
        end: if a.end >= b.end { a.end } else { b.end },
    }
}

impl Span {
    /// The span from `start` to `end`.
    pub fn new(start: usize, end: usize) -> (s: Span)
        ensures
            s == (Span { start, end }),
    {
        Span { start, end }
    }

    /// The smallest span that covers both spans.
    pub fn union(self, other: Span) -> (s: Span)
        ensures
            s == span_union(self, other),
    {
        Span {
            start: if self.start <= other.start { self.start } else { other.start },
            end: if self.end >= other.end { self.end } else { other.end },
        }
    }
}

/// A value with the span of source text it came from.
#[derive(Debug)]
pub struct Spanned<T> {
    pub inner: T,
    pub span: Span,
}

/// What stands before a statement: a symbolic name or an explicit address.
#[derive(Debug)]
pub enum Annotation {
    Label(String),
    Offset(u8),
}

/// One line of source: an optional annotation and an optional instruction.
#[derive(Debug)]
pub struct Line {
    pub annotation: Option<Spanned<Annotation>>,
    pub instruction: Option<Spanned<Instruction>>,
}

/// A statement: a mnemonic and its operands.
#[derive(Debug)]
pub struct Instruction {
    pub mnemonic: Spanned<String>,
    pub detail: Spanned<InstructionDetail>,
}

/// A source operand, possibly in brackets.
#[derive(Debug)]
pub struct Operand {
    pub deref: bool,
    pub core: CoreOperand,
}

/// An operator of a constant expression.
#[derive(Debug, Clone, Copy, PartialEq, Eq, Structural)]
pub enum ArithmeticOperator {
    Add,
    Subtract,
    Multiply,
    Divide,
    Modulo,
}

/// The operands of a statement: the source operands, and the one after `->`.
#[derive(Debug)]
pub struct InstructionDetail {
    pub operands: Vec<Spanned<Operand>>,
    pub output: Option<Spanned<OutputOperand>>,
}

/// An expression evaluated at assembly time.
#[derive(Debug)]
pub enum ConstantExpr {
    Fundamental(Spanned<Constant>),
    Arithmetic {
        left: Box<Spanned<ConstantExpr>>,
        right: Box<Spanned<ConstantExpr>>,
        operator: Spanned<ArithmeticOperator>,
    },
}

/// A register or a constant expression.
#[derive(Debug)]
pub enum CoreOperand {
    Register(Spanned<Register>),
    Constant(Spanned<ConstantExpr>),
}

/// The operand after `->`.
#[derive(Debug)]
pub enum OutputOperand {
    Register(Spanned<Register>),
    RegisterDeref(Spanned<Register>),
    ConstantDeref(Spanned<ConstantExpr>),
}

/// A literal byte or a symbolic name.
#[derive(Debug)]
pub enum Constant {
    Literal(u8),
    Symbolic(String),
}

/// An annotation as a mathematical value.
pub enum AnnotationV {
    Label(Seq<char>),
    Offset(u8),
}

/// A constant as a mathematical value.
pub enum ConstantV {
    Literal(u8),
    Symbolic(Seq<char>),
}

/// A constant expression as a mathematical value.
pub enum ExprV {
    Fundamental(Spanned<ConstantV>),
    Arithmetic {
        left: Box<Spanned<ExprV>>,
        right: Box<Spanned<ExprV>>,
        operator: Spanned<ArithmeticOperator>,
    },
}

/// A register or a constant expression, as a mathematical value.
pub enum CoreV {
    Register(Spanned<Register>),
    Constant(Spanned<ExprV>),
}

/// A source operand as a mathematical value.
pub struct OperandV {
    pub deref: bool,
    pub core: CoreV,
}

/// The operand after `->` as a mathematical value.
pub enum OutputV {
    Register(Spanned<Register>),
    RegisterDeref(Spanned<Register>),
    ConstantDeref(Spanned<ExprV>),
}

/// The operands of a statement as mathematical values.
pub struct DetailV {
    pub operands: Seq<Spanned<OperandV>>,
    pub output: Option<Spanned<OutputV>>,
}

/// A statement as a mathematical value.
pub struct InstructionV {
    pub mnemonic: Spanned<Seq<char>>,
    pub detail: Spanned<DetailV>,
}

/// A source line as a mathematical value.
pub struct LineV {
    pub annotation: Option<Spanned<AnnotationV>>,
    pub instruction: Option<Spanned<InstructionV>>,
}

pub open spec fn annotation_v(a: Spanned<Annotation>) -> Spanned<AnnotationV> {
    Spanned {
        inner: match a.inner {
            Annotation::Label(s) => AnnotationV::Label(s@),
            Annotation::Offset(v) => AnnotationV::Offset(v),
        },
        span: a.span,
    }
}

pub open spec fn constant_v(c: Spanned<Constant>) -> Spanned<ConstantV> {
    Spanned {
        inner: match c.inner {
            Constant::Literal(v) => ConstantV::Literal(v),
            Constant::Symbolic(s) => ConstantV::Symbolic(s@),
        },
        span: c.span,
    }
}

pub open spec fn expr_v(e: Spanned<ConstantExpr>) -> Spanned<ExprV>
    decreases e,
{
    Spanned {
        inner: match e.inner {
            ConstantExpr::Fundamental(c) => ExprV::Fundamental(constant_v(c)),
            ConstantExpr::Arithmetic { left, right, operator } => ExprV::Arithmetic {
                left: Box::new(expr_v(*left)),
                right: Box::new(expr_v(*right)),
                operator,
            },
        },
        span: e.span,
    }
}

pub open spec fn core_v(c: CoreOperand) -> CoreV {
    match c {
        CoreOperand::Register(r) => CoreV::Register(r),
        CoreOperand::Constant(e) => CoreV::Constant(expr_v(e)),
    }
}

pub open spec fn operand_v(o: Spanned<Operand>) -> Spanned<OperandV> {
    Spanned { inner: OperandV { deref: o.inner.deref, core: core_v(o.inner.core) }, span: o.span }
}

pub open spec fn output_v(o: Spanned<OutputOperand>) -> Spanned<OutputV> {
    Spanned {
        inner: match o.inner {
            OutputOperand::Register(r) => OutputV::Register(r),
            OutputOperand::RegisterDeref(r) => OutputV::RegisterDeref(r),
            OutputOperand::ConstantDeref(e) => OutputV::ConstantDeref(expr_v(e)),
        },
        span: o.span,
    }
}

pub open spec fn operands_v(os: Seq<Spanned<Operand>>) -> Seq<Spanned<OperandV>> {
    os.map_values(|o: Spanned<Operand>| operand_v(o))
}

pub open spec fn detail_v(d: Spanned<InstructionDetail>) -> Spanned<DetailV> {
    Spanned {
        inner: DetailV {
            operands: operands_v(d.inner.operands@),
            output: match d.inner.output {
                Some(o) => Some(output_v(o)),
                None => None,
            },
        },
        span: d.span,
    }
}

pub open spec fn instruction_v(i: Spanned<Instruction>) -> Spanned<InstructionV> {
    Spanned {
        inner: InstructionV {
            mnemonic: Spanned { inner: i.inner.mnemonic.inner@, span: i.inner.mnemonic.span },
            detail: detail_v(i.inner.detail),
        },
        span: i.span,
    }
}

pub open spec fn line_v(l: Spanned<Line>) -> Spanned<LineV> {
    Spanned {
        inner: LineV {
            annotation: match l.inner.annotation {
                Some(a) => Some(annotation_v(a)),
                None => None,
            },
            instruction: match l.inner.instruction {
                Some(i) => Some(instruction_v(i)),
                None => None,
            },
        },
        span: l.span,
    }
}

pub open spec fn lines_v(ls: Seq<Spanned<Line>>) -> Seq<Spanned<LineV>> {
    ls.map_values(|l: Spanned<Line>| line_v(l))
}

} // verus!
