use vstd::prelude::*;

use crate::ast::{
    annotation_v, constant_v, core_v, expr_v, instruction_v, line_v, lines_v, operand_v, operands_v, output_v,
    Annotation, AnnotationV, ArithmeticOperator, Constant, ConstantExpr, ConstantV, CoreOperand, CoreV, DetailV,
    ExprV, Instruction, InstructionDetail, InstructionV, Line, LineV, Operand, OperandV, OutputOperand, OutputV,
    Span, Spanned,
};
use crate::common::Register;
use crate::lexer::{lemma_lex_char_boundaries, lemma_lex_spans, spanned_tokens, spec_lex, tokens_view, AsmToken, TokenView};
use crate::serialize::{span_ok, text_spans_ok};
use vstd::slice::spec_slice_len;
use vstd::utf8::{encode_utf8, encode_utf8_valid_utf8, is_char_boundary, is_char_boundary_start_end_of_seq};

verus! {

/// What the parser was looking for where it stopped.
#[derive(Debug, Clone, Copy, PartialEq, Eq, Structural)]
pub enum Expected {
    NumericLiteral,
    Identifier,
    Register,
    Label,
    Offset,
    Annotation,
    Constant,
    InstructionMnemonic,
    Newline,
    EndOfInput,
    Colon,
    Comma,
    Into,
    LeftParen,
    RightParen,
    LeftBracket,
    RightBracket,
    Add,
    Subtract,
    Multiply,
    Divide,
    Modulo,
}

/// The furthest token index at which a part of the grammar failed, with what
/// was expected there, in the order first expected.
pub type Alt = Option<(int, Seq<Expected>)>;

/// The expected items of `a`, then those of `b` not yet among them.
pub open spec fn union_exp(a: Seq<Expected>, b: Seq<Expected>) -> Seq<Expected>
    decreases b.len(),
{
    if b.len() == 0 {
        a
    } else {
        let u = union_exp(a, b.drop_last());
        if u.contains(b.last()) {
            u
        } else {
            u.push(b.last())
        }
    }
}

/// The furthest of two failures; at the same index, what both expected.
pub open spec fn merge(a: Alt, b: Alt) -> Alt {
    match (a, b) {
        (None, _) => b,
        (_, None) => a,
        (Some((pa, ea)), Some((pb, eb))) => if pa > pb {
            a
        } else if pb > pa {
            b
        } else {
            Some((pa, union_exp(ea, eb)))
        },
    }
}

pub open spec fn fail_at(k: int, e: Expected) -> Alt {
    Some((k, seq![e]))
}

/// A named part of the grammar that fails where it starts is reported by
/// its name.
pub open spec fn relabel(a: Alt, k: int, e: Expected) -> Alt {
    match a {
        Some((p, _)) => if p == k {
            Some((k, seq![e]))
        } else {
            a
        },
        None => None,
    }
}

/// The punctuation that a token is, if any.
pub open spec fn token_kind(t: TokenView) -> Option<Expected> {
    match t {
        TokenView::Colon => Some(Expected::Colon),
        TokenView::Comma => Some(Expected::Comma),
        TokenView::Into => Some(Expected::Into),
        TokenView::LeftParen => Some(Expected::LeftParen),
        TokenView::RightParen => Some(Expected::RightParen),
        TokenView::LeftBracket => Some(Expected::LeftBracket),
        TokenView::RightBracket => Some(Expected::RightBracket),
        TokenView::Add => Some(Expected::Add),
        TokenView::Subtract => Some(Expected::Subtract),
        TokenView::Multiply => Some(Expected::Multiply),
        TokenView::Divide => Some(Expected::Divide),
        TokenView::Modulo => Some(Expected::Modulo),
        TokenView::Newline => Some(Expected::Newline),
        _ => None,
    }
}

/// Token `k` is the given punctuation.
pub open spec fn is_tok(t: Seq<(TokenView, Span)>, k: int, e: Expected) -> bool {
    0 <= k < t.len() && token_kind(t[k].0) == Some(e)
}

/// The span of the tokens `ks..ke`: from the start of token `ks` to the end
/// of token `ke - 1`; at the end of input, the empty span there.
pub open spec fn span_of(t: Seq<(TokenView, Span)>, eoi: usize, ks: int, ke: int) -> Span {
    if 0 <= ks < t.len() {
        Span {
            start: t[ks].1.start,
            end: if 0 < ke <= t.len() { t[ke - 1].1.end } else { eoi },
        }
    } else {
        Span { start: eoi, end: eoi }
    }
}

/// The multiplicative operators.
pub open spec fn mul_op(t: TokenView) -> Option<ArithmeticOperator> {
    match t {
        TokenView::Multiply => Some(ArithmeticOperator::Multiply),
        TokenView::Divide => Some(ArithmeticOperator::Divide),
        TokenView::Modulo => Some(ArithmeticOperator::Modulo),
        _ => None,
    }
}

/// The additive operators.
pub open spec fn add_op(t: TokenView) -> Option<ArithmeticOperator> {
    match t {
        TokenView::Add => Some(ArithmeticOperator::Add),
        TokenView::Subtract => Some(ArithmeticOperator::Subtract),
        _ => None,
    }
}

pub open spec fn mul_fail(p: int) -> Alt {
    Some((p, seq![Expected::Multiply, Expected::Divide, Expected::Modulo]))
}

pub open spec fn add_fail(p: int) -> Alt {
    Some((p, seq![Expected::Add, Expected::Subtract]))
}

/// A numeric literal at `k`.
pub open spec fn p_literal(t: Seq<(TokenView, Span)>, k: int) -> (Option<(u8, int)>, Alt) {
    if 0 <= k < t.len() {
        match t[k].0 {
            TokenView::LiteralHex(v) => (Some((v, k + 1)), None),
            TokenView::LiteralDec(v) => (Some((v, k + 1)), None),
            TokenView::LiteralBin(v) => (Some((v, k + 1)), None),
            _ => (None, fail_at(k, Expected::NumericLiteral)),
        }
    } else {
        (None, fail_at(k, Expected::NumericLiteral))
    }
}

/// A name at `k`.
pub open spec fn p_ident(t: Seq<(TokenView, Span)>, k: int) -> (Option<(Seq<char>, int)>, Alt) {
    if 0 <= k < t.len() {
        match t[k].0 {
            TokenView::Identifier(s) => (Some((s, k + 1)), None),
            _ => (None, fail_at(k, Expected::Identifier)),
        }
    } else {
        (None, fail_at(k, Expected::Identifier))
    }
}

/// A register at `k`.
pub open spec fn p_register(t: Seq<(TokenView, Span)>, k: int) -> (Option<(Spanned<Register>, int)>, Alt) {
    if 0 <= k < t.len() {
        match t[k].0 {
            TokenView::Register(r) => (Some((Spanned { inner: r, span: t[k].1 }, k + 1)), None),
            _ => (None, fail_at(k, Expected::Register)),
        }
    } else {
        (None, fail_at(k, Expected::Register))
    }
}

/// A literal or a name at `k`.
pub open spec fn p_constant(t: Seq<(TokenView, Span)>, k: int) -> (Option<(Spanned<ConstantV>, int)>, Alt) {
    let (l, la) = p_literal(t, k);
    match l {
        Some((v, e)) => (Some((Spanned { inner: ConstantV::Literal(v), span: t[k].1 }, e)), relabel(la, k, Expected::Constant)),
        None => {
            let (i, ia) = p_ident(t, k);
            let alt = relabel(merge(la, ia), k, Expected::Constant);
            match i {
                Some((s, e)) => (Some((Spanned { inner: ConstantV::Symbolic(s), span: t[k].1 }, e)), alt),
                None => (None, alt),
            }
        },
    }
}

/// An operand of an expression at `k`: a constant, or an expression in
/// parentheses (which keeps the span of what is inside).
pub open spec fn p_atom(t: Seq<(TokenView, Span)>, eoi: usize, k: int) -> (Option<(Spanned<ExprV>, int)>, Alt)
    decreases t.len() - k, 1int,
{
    let (c, ca) = p_constant(t, k);
    match c {
        Some((cv, e)) => (Some((Spanned { inner: ExprV::Fundamental(cv), span: cv.span }, e)), ca),
        None => if is_tok(t, k, Expected::LeftParen) {
            let (r, ra) = p_expr(t, eoi, k + 1, 0);
            let alt = merge(ca, ra);
            match r {
                Some((ev, e)) => if is_tok(t, e, Expected::RightParen) {
                    (Some((ev, e + 1)), alt)
                } else {
                    (None, merge(alt, fail_at(e, Expected::RightParen)))
                },
                None => (None, alt),
            }
        } else {
            (None, merge(ca, fail_at(k, Expected::LeftParen)))
        },
    }
}

/// An expression at `k` whose operators bind at least as tightly as `min`:
/// `* / %` bind at 10 and `+ -` at 8, both to the left.
pub open spec fn p_expr(t: Seq<(TokenView, Span)>, eoi: usize, k: int, min: int) -> (Option<(Spanned<ExprV>, int)>, Alt)
    decreases t.len() - k, 2int,
{
    if k < 0 || k > t.len() {
        (None, None)
    } else {
        let (a, aa) = p_atom(t, eoi, k);
        match a {
            None => (None, aa),
            Some((lhs, e)) => if k < e <= t.len() {
                let (r, la) = p_expr_loop(t, eoi, k, min, lhs, e);
                (r, merge(aa, la))
            } else {
                (Some((lhs, e)), aa)
            },
        }
    }
}

/// The binary operators that follow the operand `lhs`, which started at
/// `k0`, from `p` on.
pub open spec fn p_expr_loop(
    t: Seq<(TokenView, Span)>,
    eoi: usize,
    k0: int,
    min: int,
    lhs: Spanned<ExprV>,
    p: int,
) -> (Option<(Spanned<ExprV>, int)>, Alt)
    decreases t.len() - p, 0int,
{
    if p < 0 || p >= t.len() {
        (Some((lhs, p)), merge(mul_fail(p), add_fail(p)))
    } else {
        let tk = t[p].0;
        let (op, power, pre) = match mul_op(tk) {
            Some(op) => (Some(op), 10int, None),
            None => match add_op(tk) {
                Some(op) => (Some(op), 8int, mul_fail(p)),
                None => (None, 0int, mul_fail(p)),
            },
        };
        match op {
            None => (Some((lhs, p)), merge(pre, add_fail(p))),
            Some(op) => {
                // After a multiplicative operator that does not apply, the
                // additive ones are tried at the same place.
                let post = if power == 10 { add_fail(p) } else { None };
                if power >= min {
                    let (r, ra) = p_expr(t, eoi, p + 1, power + 1);
                    match r {
                        Some((rhs, e)) => if p < e <= t.len() {
                            let node = Spanned {
                                inner: ExprV::Arithmetic {
                                    left: Box::new(lhs),
                                    right: Box::new(rhs),
                                    operator: Spanned { inner: op, span: t[p].1 },
                                },
                                span: span_of(t, eoi, k0, e),
                            };
                            let (res, la) = p_expr_loop(t, eoi, k0, min, node, e);
                            (res, merge(merge(pre, ra), la))
                        } else {
                            (Some((lhs, p)), merge(merge(pre, ra), post))
                        },
                        None => (Some((lhs, p)), merge(merge(pre, ra), post)),
                    }
                } else {
                    (Some((lhs, p)), merge(pre, post))
                }
            },
        }
    }
}

/// The value of a numeric literal token.
pub open spec fn literal_token_value(tk: TokenView) -> Option<u8> {
    match tk {
        TokenView::LiteralHex(v) => Some(v),
        TokenView::LiteralDec(v) => Some(v),
        TokenView::LiteralBin(v) => Some(v),
        _ => None,
    }
}

/// The arithmetic operator a token writes: `+` and `-` of the lower
/// precedence, `*`, `/` and `%` of the higher.
pub open spec fn operator_token(tk: TokenView) -> Option<(ArithmeticOperator, int)> {
    match tk {
        TokenView::Add => Some((ArithmeticOperator::Add, 1)),
        TokenView::Subtract => Some((ArithmeticOperator::Subtract, 1)),
        TokenView::Multiply => Some((ArithmeticOperator::Multiply, 2)),
        TokenView::Divide => Some((ArithmeticOperator::Divide, 2)),
        TokenView::Modulo => Some((ArithmeticOperator::Modulo, 2)),
        _ => None,
    }
}

/// An expression that is the literal `v`.
pub open spec fn is_literal_expr(e: Spanned<ExprV>, v: u8) -> bool {
    e.inner matches ExprV::Fundamental(x) && x.inner == ConstantV::Literal(v)
}

/// The binding power with which the parser reads an operator of the given
/// precedence.
spec fn power_of(prec: int) -> int {
    if prec == 1 { 8 } else { 10 }
}

/// Operators group to the left unless the second binds more tightly: the
/// expression `a o1 b o2 c`, ending where no operator follows, reads as
/// `(a o1 b) o2 c` when `o1` binds at least as tightly as `o2` (the same
/// precedence, or `* / %` before `+ -`).
pub proof fn lemma_operators_group_left(t: Seq<(TokenView, Span)>, eoi: usize, k: int)
    requires
        0 <= k,
        k + 5 <= t.len(),
        literal_token_value(t[k].0) is Some,
        literal_token_value(t[k + 2].0) is Some,
        literal_token_value(t[k + 4].0) is Some,
        operator_token(t[k + 1].0) is Some,
        operator_token(t[k + 3].0) is Some,
        operator_token(t[k + 1].0)->Some_0.1 >= operator_token(t[k + 3].0)->Some_0.1,
        k + 5 == t.len() || operator_token(t[k + 5].0) is None,
    ensures
        p_expr(t, eoi, k, 0).0 matches Some((e, end)) && end == k + 5 && {
            e.inner matches ExprV::Arithmetic { left, right, operator } && {
                &&& operator.inner == operator_token(t[k + 3].0)->Some_0.0
                &&& is_literal_expr(*right, literal_token_value(t[k + 4].0)->Some_0)
                &&& left.inner matches ExprV::Arithmetic { left: l2, right: r2, operator: o2 }
                &&& o2.inner == operator_token(t[k + 1].0)->Some_0.0
                &&& is_literal_expr(*l2, literal_token_value(t[k].0)->Some_0)
                &&& is_literal_expr(*r2, literal_token_value(t[k + 2].0)->Some_0)
            }
        },
{
    let fa = p_atom(t, eoi, k).0->Some_0.0;
    let fb = p_atom(t, eoi, k + 2).0->Some_0.0;
    let fc = p_atom(t, eoi, k + 4).0->Some_0.0;
    assert(p_atom(t, eoi, k).0 == Some((fa, k + 1)));
    assert(p_atom(t, eoi, k + 2).0 == Some((fb, k + 3)));
    assert(p_atom(t, eoi, k + 4).0 == Some((fc, k + 5)));
    let pw1 = power_of(operator_token(t[k + 1].0)->Some_0.1);
    let pw2 = power_of(operator_token(t[k + 3].0)->Some_0.1);
    // The operand after the first operator stops at the second.
    assert(p_expr_loop(t, eoi, k + 2, pw1 + 1, fb, k + 3).0 == Some((fb, k + 3)));
    assert(p_expr(t, eoi, k + 2, pw1 + 1).0 == Some((fb, k + 3)));
    // The operand after the second operator stops at the end.
    assert(p_expr_loop(t, eoi, k + 4, pw2 + 1, fc, k + 5).0 == Some((fc, k + 5)));
    assert(p_expr(t, eoi, k + 4, pw2 + 1).0 == Some((fc, k + 5)));
    let n1 = Spanned {
        inner: ExprV::Arithmetic {
            left: Box::new(fa),
            right: Box::new(fb),
            operator: Spanned { inner: operator_token(t[k + 1].0)->Some_0.0, span: t[k + 1].1 },
        },
        span: span_of(t, eoi, k, k + 3),
    };
    let n2 = Spanned {
        inner: ExprV::Arithmetic {
            left: Box::new(n1),
            right: Box::new(fc),
            operator: Spanned { inner: operator_token(t[k + 3].0)->Some_0.0, span: t[k + 3].1 },
        },
        span: span_of(t, eoi, k, k + 5),
    };
    assert(p_expr_loop(t, eoi, k, 0, n2, k + 5).0 == Some((n2, k + 5)));
    assert(p_expr_loop(t, eoi, k, 0, n1, k + 3).0 == Some((n2, k + 5)));
    assert(p_expr_loop(t, eoi, k, 0, fa, k + 1).0 == Some((n2, k + 5)));
    assert(p_expr(t, eoi, k, 0).0 == Some((n2, k + 5)));
}

/// An operator that binds more tightly takes its operands first: the
/// expression `a o1 b o2 c`, with `o1` one of `+ -` and `o2` one of
/// `* / %`, ending where no operator follows, reads as `a o1 (b o2 c)`.
pub proof fn lemma_tighter_operator_first(t: Seq<(TokenView, Span)>, eoi: usize, k: int)
    requires
        0 <= k,
        k + 5 <= t.len(),
        literal_token_value(t[k].0) is Some,
        literal_token_value(t[k + 2].0) is Some,
        literal_token_value(t[k + 4].0) is Some,
        operator_token(t[k + 1].0) is Some,
        operator_token(t[k + 3].0) is Some,
        operator_token(t[k + 1].0)->Some_0.1 < operator_token(t[k + 3].0)->Some_0.1,
        k + 5 == t.len() || operator_token(t[k + 5].0) is None,
    ensures
        p_expr(t, eoi, k, 0).0 matches Some((e, end)) && end == k + 5 && {
            e.inner matches ExprV::Arithmetic { left, right, operator } && {
                &&& operator.inner == operator_token(t[k + 1].0)->Some_0.0
                &&& is_literal_expr(*left, literal_token_value(t[k].0)->Some_0)
                &&& right.inner matches ExprV::Arithmetic { left: l2, right: r2, operator: o2 }
                &&& o2.inner == operator_token(t[k + 3].0)->Some_0.0
                &&& is_literal_expr(*l2, literal_token_value(t[k + 2].0)->Some_0)
                &&& is_literal_expr(*r2, literal_token_value(t[k + 4].0)->Some_0)
            }
        },
{
    let fa = p_atom(t, eoi, k).0->Some_0.0;
    let fb = p_atom(t, eoi, k + 2).0->Some_0.0;
    let fc = p_atom(t, eoi, k + 4).0->Some_0.0;
    assert(p_atom(t, eoi, k).0 == Some((fa, k + 1)));
    assert(p_atom(t, eoi, k + 2).0 == Some((fb, k + 3)));
    assert(p_atom(t, eoi, k + 4).0 == Some((fc, k + 5)));
    assert(p_expr_loop(t, eoi, k + 4, 11, fc, k + 5).0 == Some((fc, k + 5)));
    assert(p_expr(t, eoi, k + 4, 11).0 == Some((fc, k + 5)));
    let nb = Spanned {
        inner: ExprV::Arithmetic {
            left: Box::new(fb),
            right: Box::new(fc),
            operator: Spanned { inner: operator_token(t[k + 3].0)->Some_0.0, span: t[k + 3].1 },
        },
        span: span_of(t, eoi, k + 2, k + 5),
    };
    assert(p_expr_loop(t, eoi, k + 2, 9, nb, k + 5).0 == Some((nb, k + 5)));
    assert(p_expr_loop(t, eoi, k + 2, 9, fb, k + 3).0 == Some((nb, k + 5)));
    assert(p_expr(t, eoi, k + 2, 9).0 == Some((nb, k + 5)));
    let n = Spanned {
        inner: ExprV::Arithmetic {
            left: Box::new(fa),
            right: Box::new(nb),
            operator: Spanned { inner: operator_token(t[k + 1].0)->Some_0.0, span: t[k + 1].1 },
        },
        span: span_of(t, eoi, k, k + 5),
    };
    assert(p_expr_loop(t, eoi, k, 0, n, k + 5).0 == Some((n, k + 5)));
    assert(p_expr_loop(t, eoi, k, 0, fa, k + 1).0 == Some((n, k + 5)));
    assert(p_expr(t, eoi, k, 0).0 == Some((n, k + 5)));
}

/// A register or a constant expression at `k`.
pub open spec fn p_core(t: Seq<(TokenView, Span)>, eoi: usize, k: int) -> (Option<(CoreV, int)>, Alt) {
    let (x, xa) = p_expr(t, eoi, k, 0);
    match x {
        Some((ev, e)) => (Some((CoreV::Constant(ev), e)), xa),
        None => {
            let (r, ra) = p_register(t, k);
            match r {
                Some((reg, e)) => (Some((CoreV::Register(reg), e)), merge(xa, ra)),
                None => (None, merge(xa, ra)),
            }
        },
    }
}

/// A source operand at `k`, possibly in brackets.
pub open spec fn p_operand(t: Seq<(TokenView, Span)>, eoi: usize, k: int) -> (Option<(Spanned<OperandV>, int)>, Alt) {
    let (c, ca) = p_core(t, eoi, k);
    match c {
        Some((cv, e)) => (Some((Spanned { inner: OperandV { deref: false, core: cv }, span: span_of(t, eoi, k, e) }, e)), ca),
        None => if is_tok(t, k, Expected::LeftBracket) {
            let (c2, ca2) = p_core(t, eoi, k + 1);
            let alt = merge(ca, ca2);
            match c2 {
                Some((cv, e)) => if is_tok(t, e, Expected::RightBracket) {
                    (Some((Spanned { inner: OperandV { deref: true, core: cv }, span: span_of(t, eoi, k, e + 1) }, e + 1)), alt)
                } else {
                    (None, merge(alt, fail_at(e, Expected::RightBracket)))
                },
                None => (None, alt),
            }
        } else {
            (None, merge(ca, fail_at(k, Expected::LeftBracket)))
        },
    }
}

/// What may stand in brackets after `->`: a register or an expression.
pub open spec fn p_output_inner(t: Seq<(TokenView, Span)>, eoi: usize, k: int) -> (Option<(OutputV, int)>, Alt) {
    let (r, ra) = p_register(t, k);
    match r {
        Some((reg, e)) => (Some((OutputV::RegisterDeref(reg), e)), ra),
        None => {
            let (x, xa) = p_expr(t, eoi, k, 0);
            match x {
                Some((ev, e)) => (Some((OutputV::ConstantDeref(ev), e)), merge(ra, xa)),
                None => (None, merge(ra, xa)),
            }
        },
    }
}

/// The operand after `->`, at `k`.
pub open spec fn p_into(t: Seq<(TokenView, Span)>, eoi: usize, k: int) -> (Option<(Spanned<OutputV>, int)>, Alt) {
    let (r, ra) = p_register(t, k);
    match r {
        Some((reg, e)) => (Some((Spanned { inner: OutputV::Register(reg), span: span_of(t, eoi, k, e) }, e)), ra),
        None => if is_tok(t, k, Expected::LeftBracket) {
            let (o, oa) = p_output_inner(t, eoi, k + 1);
            let alt = merge(ra, oa);
            match o {
                Some((ov, e)) => if is_tok(t, e, Expected::RightBracket) {
                    (Some((Spanned { inner: ov, span: span_of(t, eoi, k, e + 1) }, e + 1)), alt)
                } else {
                    (None, merge(alt, fail_at(e, Expected::RightBracket)))
                },
                None => (None, alt),
            }
        } else {
            (None, merge(ra, fail_at(k, Expected::LeftBracket)))
        },
    }
}

/// Further operands, each after a comma, from `p` on. A comma that no
/// operand follows is left in place.
pub open spec fn p_operands_more(t: Seq<(TokenView, Span)>, eoi: usize, p: int, acc: Seq<Spanned<OperandV>>)
    -> (Seq<Spanned<OperandV>>, int, Alt)
    decreases t.len() - p,
{
    if is_tok(t, p, Expected::Comma) {
        let (o, oa) = p_operand(t, eoi, p + 1);
        match o {
            Some((ov, e)) => if p < e <= t.len() {
                let (r, e2, ra) = p_operands_more(t, eoi, e, acc.push(ov));
                (r, e2, merge(oa, ra))
            } else {
                (acc.push(ov), e, oa)
            },
            None => (acc, p, oa),
        }
    } else {
        (acc, p, fail_at(p, Expected::Comma))
    }
}

/// The operands of a statement, separated by commas, from `k` on.
pub open spec fn p_operands(t: Seq<(TokenView, Span)>, eoi: usize, k: int) -> (Seq<Spanned<OperandV>>, int, Alt) {
    let (o, oa) = p_operand(t, eoi, k);
    match o {
        Some((ov, e)) => if k < e <= t.len() {
            let (r, e2, ra) = p_operands_more(t, eoi, e, seq![ov]);
            (r, e2, merge(oa, ra))
        } else {
            (seq![ov], e, oa)
        },
        None => (Seq::empty(), k, oa),
    }
}

/// An optional `->` and the operand after it, at `p`.
pub open spec fn p_output(t: Seq<(TokenView, Span)>, eoi: usize, p: int) -> (Option<Spanned<OutputV>>, int, Alt) {
    if is_tok(t, p, Expected::Into) {
        let (o, oa) = p_into(t, eoi, p + 1);
        match o {
            Some((ov, e)) => (Some(ov), e, oa),
            None => (None, p, oa),
        }
    } else {
        (None, p, fail_at(p, Expected::Into))
    }
}

/// A statement at `k`: a mnemonic, its operands and an optional output.
pub open spec fn p_instr(t: Seq<(TokenView, Span)>, eoi: usize, k: int) -> (Option<(Spanned<InstructionV>, int)>, Alt) {
    let (m, ma) = p_ident(t, k);
    let ma = relabel(ma, k, Expected::InstructionMnemonic);
    match m {
        None => (None, ma),
        Some((s, k1)) => {
            let (ops, p, oa) = p_operands(t, eoi, k1);
            let (out, e, ua) = p_output(t, eoi, p);
            let detail = Spanned { inner: DetailV { operands: ops, output: out }, span: span_of(t, eoi, k1, e) };
            (
                Some((Spanned { inner: InstructionV { mnemonic: Spanned { inner: s, span: t[k].1 }, detail }, span: span_of(t, eoi, k, e) }, e)),
                merge(ma, merge(oa, ua)),
            )
        },
    }
}

/// An annotation at `k`: a name or a literal, then a colon.
pub open spec fn p_annotation(t: Seq<(TokenView, Span)>, eoi: usize, k: int) -> (Option<(Spanned<AnnotationV>, int)>, Alt) {
    let (i, ia) = p_ident(t, k);
    let (lab, la) = match i {
        Some((s, k1)) => if is_tok(t, k1, Expected::Colon) {
            (Some((AnnotationV::Label(s), k1 + 1)), ia)
        } else {
            (None, merge(ia, fail_at(k1, Expected::Colon)))
        },
        None => (None, ia),
    };
    let la = relabel(la, k, Expected::Label);
    match lab {
        Some((av, e)) => (Some((Spanned { inner: av, span: span_of(t, eoi, k, e) }, e)), relabel(la, k, Expected::Annotation)),
        None => {
            let (l, lla) = p_literal(t, k);
            let (off, oa) = match l {
                Some((v, k1)) => if is_tok(t, k1, Expected::Colon) {
                    (Some((AnnotationV::Offset(v), k1 + 1)), lla)
                } else {
                    (None, merge(lla, fail_at(k1, Expected::Colon)))
                },
                None => (None, lla),
            };
            let alt = relabel(merge(la, relabel(oa, k, Expected::Offset)), k, Expected::Annotation);
            match off {
                Some((av, e)) => (Some((Spanned { inner: av, span: span_of(t, eoi, k, e) }, e)), alt),
                None => (None, alt),
            }
        },
    }
}

/// A line at `k`: an optional annotation, then an optional statement.
pub open spec fn p_line(t: Seq<(TokenView, Span)>, eoi: usize, k: int) -> (Spanned<LineV>, int, Alt) {
    let (a, aa) = p_annotation(t, eoi, k);
    let (ann, k1) = match a {
        Some((av, e)) => (Some(av), e),
        None => (None, k),
    };
    let (i, ia) = p_instr(t, eoi, k1);
    let (ins, e) = match i {
        Some((iv, e)) => (Some(iv), e),
        None => (None, k1),
    };
    (Spanned { inner: LineV { annotation: ann, instruction: ins }, span: span_of(t, eoi, k, e) }, e, merge(aa, ia))
}

/// Further lines, each after a line break, from `p` on.
pub open spec fn p_lines_more(t: Seq<(TokenView, Span)>, eoi: usize, p: int, acc: Seq<Spanned<LineV>>)
    -> (Seq<Spanned<LineV>>, int, Alt)
    decreases t.len() - p,
{
    if is_tok(t, p, Expected::Newline) {
        let (l, e, la) = p_line(t, eoi, p + 1);
        if p < e <= t.len() {
            let (r, e2, ra) = p_lines_more(t, eoi, e, acc.push(l));
            (r, e2, merge(la, ra))
        } else {
            (acc.push(l), e, la)
        }
    } else {
        (acc, p, fail_at(p, Expected::Newline))
    }
}

/// A parse error: where the parser got furthest, the token found there
/// (`None` at the end of input) and what was expected instead.
pub struct ParseErrorV {
    pub span: Span,
    pub found: Option<TokenView>,
    pub expected: Seq<Expected>,
}

/// Parses a token sequence of a text of `eoi` bytes into lines: an optional
/// leading line break, then lines separated by line breaks, up to the end
/// of input. On failure, the error at the furthest token reached.
pub open spec fn spec_parse(t: Seq<(TokenView, Span)>, eoi: usize) -> Result<Seq<Spanned<LineV>>, ParseErrorV> {
    let (k0, a0) = if is_tok(t, 0, Expected::Newline) { (1int, None) } else { (0int, fail_at(0, Expected::Newline)) };
    let (l, e, la) = p_line(t, eoi, k0);
    let (ls, e2, ra) = p_lines_more(t, eoi, e, seq![l]);
    if e2 == t.len() {
        Ok(ls)
    } else {
        let alt = merge(merge(a0, merge(la, ra)), fail_at(e2, Expected::EndOfInput));
        let (pos, exp) = alt.unwrap();
        Err(ParseErrorV {
            span: if 0 <= pos < t.len() { t[pos].1 } else { Span { start: eoi, end: eoi } },
            found: if 0 <= pos < t.len() { Some(t[pos].0) } else { None },
            expected: exp,
        })
    }
}

proof fn lemma_atom_end(t: Seq<(TokenView, Span)>, eoi: usize, k: int)
    ensures
        p_atom(t, eoi, k).0 matches Some((_, e)) ==> 0 <= k < e <= t.len(),
    decreases t.len() - k, 1int,
{
    if p_constant(t, k).0 is None && is_tok(t, k, Expected::LeftParen) {
        lemma_expr_end(t, eoi, k + 1, 0);
    }
}

proof fn lemma_expr_end(t: Seq<(TokenView, Span)>, eoi: usize, k: int, min: int)
    ensures
        p_expr(t, eoi, k, min).0 matches Some((_, e)) ==> 0 <= k < e <= t.len(),
    decreases t.len() - k, 2int,
{
    if 0 <= k <= t.len() {
        lemma_atom_end(t, eoi, k);
        if let Some((lhs, e)) = p_atom(t, eoi, k).0 {
            lemma_expr_loop_end(t, eoi, k, min, lhs, e);
        }
    }
}

proof fn lemma_expr_loop_end(t: Seq<(TokenView, Span)>, eoi: usize, k0: int, min: int, lhs: Spanned<ExprV>, p: int)
    requires
        0 <= p <= t.len(),
    ensures
        p_expr_loop(t, eoi, k0, min, lhs, p).0 matches Some((_, e)) && p <= e <= t.len(),
    decreases t.len() - p, 0int,
{
    if p < t.len() {
        let tk = t[p].0;
        let power = if mul_op(tk) is Some { 10int } else if add_op(tk) is Some { 8int } else { 0int };
        if (mul_op(tk) is Some || add_op(tk) is Some) && power >= min {
            lemma_expr_end(t, eoi, p + 1, power + 1);
            if let Some((rhs, e)) = p_expr(t, eoi, p + 1, power + 1).0 {
                let op = if mul_op(tk) is Some { mul_op(tk).unwrap() } else { add_op(tk).unwrap() };
                let node = Spanned {
                    inner: ExprV::Arithmetic {
                        left: Box::new(lhs),
                        right: Box::new(rhs),
                        operator: Spanned { inner: op, span: t[p].1 },
                    },
                    span: span_of(t, eoi, k0, e),
                };
                lemma_expr_loop_end(t, eoi, k0, min, node, e);
            }
        }
    }
}

proof fn lemma_core_end(t: Seq<(TokenView, Span)>, eoi: usize, k: int)
    ensures
        p_core(t, eoi, k).0 matches Some((_, e)) ==> 0 <= k < e <= t.len(),
{
    lemma_expr_end(t, eoi, k, 0);
}

proof fn lemma_operand_end(t: Seq<(TokenView, Span)>, eoi: usize, k: int)
    ensures
        p_operand(t, eoi, k).0 matches Some((_, e)) ==> 0 <= k < e <= t.len(),
{
    lemma_core_end(t, eoi, k);
    lemma_core_end(t, eoi, k + 1);
}

proof fn lemma_operands_more_end(t: Seq<(TokenView, Span)>, eoi: usize, p: int, acc: Seq<Spanned<OperandV>>)
    requires
        0 <= p <= t.len(),
    ensures
        p <= p_operands_more(t, eoi, p, acc).1 <= t.len(),
    decreases t.len() - p,
{
    if is_tok(t, p, Expected::Comma) {
        lemma_operand_end(t, eoi, p + 1);
        if let Some((ov, e)) = p_operand(t, eoi, p + 1).0 {
            lemma_operands_more_end(t, eoi, e, acc.push(ov));
        }
    }
}

proof fn lemma_operands_end(t: Seq<(TokenView, Span)>, eoi: usize, k: int)
    requires
        0 <= k <= t.len(),
    ensures
        k <= p_operands(t, eoi, k).1 <= t.len(),
{
    lemma_operand_end(t, eoi, k);
    if let Some((ov, e)) = p_operand(t, eoi, k).0 {
        lemma_operands_more_end(t, eoi, e, seq![ov]);
    }
}

proof fn lemma_output_end(t: Seq<(TokenView, Span)>, eoi: usize, p: int)
    requires
        0 <= p <= t.len(),
    ensures
        p <= p_output(t, eoi, p).1 <= t.len(),
{
    lemma_expr_end(t, eoi, p + 2, 0);
}

proof fn lemma_instr_end(t: Seq<(TokenView, Span)>, eoi: usize, k: int)
    ensures
        p_instr(t, eoi, k).0 matches Some((iv, e)) ==> 0 <= k < e <= t.len() && iv.span == span_of(t, eoi, k, e),
{
    if 0 <= k < t.len() && t[k].0 is Identifier {
        lemma_operands_end(t, eoi, k + 1);
        lemma_output_end(t, eoi, p_operands(t, eoi, k + 1).1);
    }
}

/// The tokens of `b`, in order, each between characters of `b`.
pub open spec fn tokens_in_text(b: Seq<u8>, t: Seq<(TokenView, Span)>) -> bool {
    &&& forall|k: int| 0 <= k < t.len() ==> span_ok(b, #[trigger] t[k].1)
    &&& forall|j: int, k: int| 0 <= j <= k < t.len() ==> #[trigger] t[j].1.start <= #[trigger] t[k].1.end
    &&& is_char_boundary(b, b.len() as int)
}

/// Every statement that a line holds has a span between characters of `b`.
pub open spec fn line_spans_ok(b: Seq<u8>, l: Spanned<LineV>) -> bool {
    l.inner.instruction matches Some(iv) ==> span_ok(b, iv.span)
}

proof fn lemma_line_spans(b: Seq<u8>, t: Seq<(TokenView, Span)>, k: int)
    requires
        tokens_in_text(b, t),
        b.len() <= usize::MAX,
    ensures
        line_spans_ok(b, p_line(t, b.len() as usize, k).0),
{
    let eoi = b.len() as usize;
    let k1 = match p_annotation(t, eoi, k).0 {
        Some((_, e)) => e,
        None => k,
    };
    lemma_instr_end(t, eoi, k1);
    if let Some((iv, e)) = p_instr(t, eoi, k1).0 {
        assert(span_ok(b, t[k1].1));
        assert(span_ok(b, t[e - 1].1));
        assert(t[k1].1.start <= t[e - 1].1.end);
    }
}

proof fn lemma_lines_more_spans(b: Seq<u8>, t: Seq<(TokenView, Span)>, p: int, acc: Seq<Spanned<LineV>>)
    requires
        tokens_in_text(b, t),
        b.len() <= usize::MAX,
        forall|i: int| 0 <= i < acc.len() ==> line_spans_ok(b, #[trigger] acc[i]),
    ensures
        forall|i: int| 0 <= i < p_lines_more(t, b.len() as usize, p, acc).0.len()
            ==> line_spans_ok(b, #[trigger] p_lines_more(t, b.len() as usize, p, acc).0[i]),
    decreases t.len() - p,
{
    let eoi = b.len() as usize;
    if is_tok(t, p, Expected::Newline) {
        let (l, e, la) = p_line(t, eoi, p + 1);
        lemma_line_spans(b, t, p + 1);
        let next = acc.push(l);
        assert forall|i: int| 0 <= i < next.len() implies line_spans_ok(b, #[trigger] next[i]) by {
            if i < acc.len() {
                assert(next[i] == acc[i]);
            }
        }
        if p < e <= t.len() {
            lemma_lines_more_spans(b, t, e, next);
            assert(p_lines_more(t, eoi, p, acc).0 == p_lines_more(t, eoi, e, next).0);
        } else {
            assert(p_lines_more(t, eoi, p, acc).0 == next);
        }
    } else {
        assert(p_lines_more(t, eoi, p, acc).0 == acc);
    }
}

proof fn lemma_token_order(t: Seq<(TokenView, Span)>, j: int, k: int)
    requires
        0 <= j <= k < t.len(),
        forall|i: int| 0 <= i < t.len() ==> (#[trigger] t[i]).1.start < t[i].1.end,
        forall|i: int| 0 <= i < t.len() - 1 ==> (#[trigger] t[i]).1.end <= t[i + 1].1.start,
    ensures
        t[j].1.start <= t[k].1.end,
    decreases k - j,
{
    if j < k {
        assert(t[j].1.end <= t[j + 1].1.start);
        lemma_token_order(t, j + 1, k);
    }
}

/// The spans that the parser gives for a text lie within it and between
/// its characters: that of every statement it reads, and that of the error
/// where it stops.
pub proof fn lemma_parse_spans(text: Seq<char>)
    requires
        encode_utf8(text).len() <= usize::MAX,
        spec_lex(encode_utf8(text), 0) is Some,
    ensures
        match spec_parse(spec_lex(encode_utf8(text), 0).unwrap(), encode_utf8(text).len() as usize) {
            Ok(ls) => forall|i: int| 0 <= i < ls.len() ==> line_spans_ok(encode_utf8(text), #[trigger] ls[i]),
            Err(e) => span_ok(encode_utf8(text), e.span),
        },
{
    let b = encode_utf8(text);
    let t = spec_lex(b, 0).unwrap();
    let eoi = b.len() as usize;
    lemma_lex_spans(b, 0);
    lemma_lex_char_boundaries(text);
    encode_utf8_valid_utf8(text);
    is_char_boundary_start_end_of_seq(b);
    assert forall|k: int| 0 <= k < t.len() implies span_ok(b, #[trigger] t[k].1) by {}
    assert forall|j: int, k: int| 0 <= j <= k < t.len() implies #[trigger] t[j].1.start <= #[trigger] t[k].1.end by {
        lemma_token_order(t, j, k);
    }
    let k0: int = if is_tok(t, 0, Expected::Newline) { 1 } else { 0 };
    let (l, e, la) = p_line(t, eoi, k0);
    lemma_line_spans(b, t, k0);
    lemma_lines_more_spans(b, t, e, seq![l]);
}

/// A failure record of the parser.
pub type ExecAlt = Option<(usize, Vec<Expected>)>;

pub open spec fn alt_v(a: ExecAlt) -> Alt {
    match a {
        Some((p, v)) => Some((p as int, v@)),
        None => None,
    }
}

fn contains_exp(v: &Vec<Expected>, x: Expected) -> (r: bool)
    ensures
        r == v@.contains(x),
{
    let mut k: usize = 0;
    while k < v.len()
        invariant
            k <= v@.len(),
            forall|m: int| 0 <= m < k ==> v@[m] != x,
        decreases v@.len() - k,
    {
        if v[k] == x {
            return true;
        }
        k = k + 1;
    }
    false
}

fn union_exec(a: Vec<Expected>, b: &Vec<Expected>) -> (r: Vec<Expected>)
    ensures
        r@ == union_exp(a@, b@),
{
    let mut r = a;
    let ghost a0 = r@;
    let mut k: usize = 0;
    assert(b@.take(0) =~= Seq::<Expected>::empty());
    while k < b.len()
        invariant
            k <= b@.len(),
            r@ == union_exp(a0, b@.take(k as int)),
        decreases b@.len() - k,
    {
        let x = b[k];
        assert(b@.take(k + 1).drop_last() =~= b@.take(k as int));
        if !contains_exp(&r, x) {
            r.push(x);
        }
        k = k + 1;
    }
    assert(b@.take(b@.len() as int) =~= b@);
    r
}

fn merge_exec(a: ExecAlt, b: ExecAlt) -> (r: ExecAlt)
    ensures
        alt_v(r) == merge(alt_v(a), alt_v(b)),
{
    match a {
        None => b,
        Some((pa, ea)) => match b {
            None => Some((pa, ea)),
            Some((pb, eb)) => if pa > pb {
                Some((pa, ea))
            } else if pb > pa {
                Some((pb, eb))
            } else {
                Some((pa, union_exec(ea, &eb)))
            },
        },
    }
}

fn fail_exec(k: usize, e: Expected) -> (r: ExecAlt)
    ensures
        alt_v(r) == fail_at(k as int, e),
{
    let mut v: Vec<Expected> = Vec::new();
    v.push(e);
    assert(v@ =~= seq![e]);
    Some((k, v))
}

fn fail2_exec(k: usize, e1: Expected, e2: Expected) -> (r: ExecAlt)
    ensures
        alt_v(r) == Some((k as int, seq![e1, e2])),
{
    let mut v: Vec<Expected> = Vec::new();
    v.push(e1);
    v.push(e2);
    assert(v@ =~= seq![e1, e2]);
    Some((k, v))
}

fn fail3_exec(k: usize, e1: Expected, e2: Expected, e3: Expected) -> (r: ExecAlt)
    ensures
        alt_v(r) == Some((k as int, seq![e1, e2, e3])),
{
    let mut v: Vec<Expected> = Vec::new();
    v.push(e1);
    v.push(e2);
    v.push(e3);
    assert(v@ =~= seq![e1, e2, e3]);
    Some((k, v))
}

fn relabel_exec(a: ExecAlt, k: usize, e: Expected) -> (r: ExecAlt)
    ensures
        alt_v(r) == relabel(alt_v(a), k as int, e),
{
    match a {
        Some((p, v)) => if p == k {
            fail_exec(k, e)
        } else {
            Some((p, v))
        },
        None => None,
    }
}

/// The punctuation that token `k` is, if any.
fn kind_at(t: &[(AsmToken, Span)], k: usize) -> (r: Option<Expected>)
    ensures
        r == (if k < t@.len() { token_kind(tokens_view(t@)[k as int].0) } else { None }),
{
    if k >= t.len() {
        return None;
    }
    match &t[k].0 {
        AsmToken::Colon => Some(Expected::Colon),
        AsmToken::Comma => Some(Expected::Comma),
        AsmToken::Into => Some(Expected::Into),
        AsmToken::LeftParen => Some(Expected::LeftParen),
        AsmToken::RightParen => Some(Expected::RightParen),
        AsmToken::LeftBracket => Some(Expected::LeftBracket),
        AsmToken::RightBracket => Some(Expected::RightBracket),
        AsmToken::Add => Some(Expected::Add),
        AsmToken::Subtract => Some(Expected::Subtract),
        AsmToken::Multiply => Some(Expected::Multiply),
        AsmToken::Divide => Some(Expected::Divide),
        AsmToken::Modulo => Some(Expected::Modulo),
        AsmToken::Newline => Some(Expected::Newline),
        _ => None,
    }
}

fn is_tok_exec(t: &[(AsmToken, Span)], k: usize, e: Expected) -> (r: bool)
    ensures
        r == is_tok(tokens_view(t@), k as int, e),
{
    match kind_at(t, k) {
        Some(x) => x == e,
        None => false,
    }
}

fn span_of_exec(t: &[(AsmToken, Span)], eoi: usize, ks: usize, ke: usize) -> (r: Span)
    ensures
        r == span_of(tokens_view(t@), eoi, ks as int, ke as int),
{
    if ks < t.len() {
        let end = if 0 < ke && ke <= t.len() { t[ke - 1].1.end } else { eoi };
        Span::new(t[ks].1.start, end)
    } else {
        Span::new(eoi, eoi)
    }
}

fn parse_literal(t: &[(AsmToken, Span)], k: usize) -> (r: (Option<(u8, usize)>, ExecAlt))
    ensures
        ({
            let (sv, sa) = p_literal(tokens_view(t@), k as int);
            &&& match sv {
                Some((v, e)) => r.0 matches Some((v2, e2)) && v2 == v && e2 == e,
                None => r.0 is None,
            }
            &&& alt_v(r.1) == sa
        }),
{
    if k < t.len() {
        match &t[k].0 {
            AsmToken::LiteralHex(v) => return (Some((*v, k + 1)), None),
            AsmToken::LiteralDec(v) => return (Some((*v, k + 1)), None),
            AsmToken::LiteralBin(v) => return (Some((*v, k + 1)), None),
            _ => {},
        }
    }
    (None, fail_exec(k, Expected::NumericLiteral))
}

fn parse_ident(t: &[(AsmToken, Span)], k: usize) -> (r: (Option<(String, usize)>, ExecAlt))
    ensures
        ({
            let (sv, sa) = p_ident(tokens_view(t@), k as int);
            &&& match sv {
                Some((v, e)) => r.0 matches Some((v2, e2)) && v2@ == v && e2 == e,
                None => r.0 is None,
            }
            &&& alt_v(r.1) == sa
        }),
{
    if k < t.len() {
        match &t[k].0 {
            AsmToken::Identifier(s) => return (Some((s.clone(), k + 1)), None),
            _ => {},
        }
    }
    (None, fail_exec(k, Expected::Identifier))
}

fn parse_register(t: &[(AsmToken, Span)], k: usize) -> (r: (Option<(Spanned<Register>, usize)>, ExecAlt))
    ensures
        ({
            let (sv, sa) = p_register(tokens_view(t@), k as int);
            &&& match sv {
                Some((v, e)) => r.0 matches Some((v2, e2)) && v2 == v && e2 == e,
                None => r.0 is None,
            }
            &&& alt_v(r.1) == sa
        }),
{
    if k < t.len() {
        match &t[k].0 {
            AsmToken::Register(reg) => return (Some((Spanned { inner: *reg, span: t[k].1 }, k + 1)), None),
            _ => {},
        }
    }
    (None, fail_exec(k, Expected::Register))
}

fn parse_constant(t: &[(AsmToken, Span)], k: usize) -> (r: (Option<(Spanned<Constant>, usize)>, ExecAlt))
    ensures
        ({
            let (sv, sa) = p_constant(tokens_view(t@), k as int);
            &&& match sv {
                Some((v, e)) => r.0 matches Some((v2, e2)) && constant_v(v2) == v && e2 == e,
                None => r.0 is None,
            }
            &&& alt_v(r.1) == sa
        }),
{
    let (l, la) = parse_literal(t, k);
    match l {
        Some((v, e)) => (Some((Spanned { inner: Constant::Literal(v), span: t[k].1 }, e)), relabel_exec(la, k, Expected::Constant)),
        None => {
            let (i, ia) = parse_ident(t, k);
            let alt = relabel_exec(merge_exec(la, ia), k, Expected::Constant);
            match i {
                Some((s, e)) => (Some((Spanned { inner: Constant::Symbolic(s), span: t[k].1 }, e)), alt),
                None => (None, alt),
            }
        },
    }
}

fn parse_atom(t: &[(AsmToken, Span)], eoi: usize, k: usize) -> (r: (Option<(Spanned<ConstantExpr>, usize)>, ExecAlt))
    requires
        k <= t@.len(),
    ensures
        ({
            let (sv, sa) = p_atom(tokens_view(t@), eoi, k as int);
            &&& match sv {
                Some((v, e)) => r.0 matches Some((x, e2)) && expr_v(x) == v && e2 == e && k < e2 <= t@.len(),
                None => r.0 is None,
            }
            &&& alt_v(r.1) == sa
        }),
    decreases t@.len() - k, 1int,
{
    let n = t.len();
    assert(tokens_view(t@).len() == n);
    let (c, ca) = parse_constant(t, k);
    match c {
        Some((cv, e)) => {
            let sp = cv.span;
            (Some((Spanned { inner: ConstantExpr::Fundamental(cv), span: sp }, e)), ca)
        },
        None => if is_tok_exec(t, k, Expected::LeftParen) {
            let (r, ra) = parse_expr(t, eoi, k + 1, 0);
            let alt = merge_exec(ca, ra);
            match r {
                Some((ev, e)) => if is_tok_exec(t, e, Expected::RightParen) {
                    (Some((ev, e + 1)), alt)
                } else {
                    (None, merge_exec(alt, fail_exec(e, Expected::RightParen)))
                },
                None => (None, alt),
            }
        } else {
            (None, merge_exec(ca, fail_exec(k, Expected::LeftParen)))
        },
    }
}

fn parse_expr(t: &[(AsmToken, Span)], eoi: usize, k: usize, min: u8) -> (r: (Option<(Spanned<ConstantExpr>, usize)>, ExecAlt))
    requires
        k <= t@.len(),
    ensures
        ({
            let (sv, sa) = p_expr(tokens_view(t@), eoi, k as int, min as int);
            &&& match sv {
                Some((v, e)) => r.0 matches Some((x, e2)) && expr_v(x) == v && e2 == e && k < e2 <= t@.len(),
                None => r.0 is None,
            }
            &&& alt_v(r.1) == sa
        }),
    decreases t@.len() - k, 2int,
{
    let (a, aa) = parse_atom(t, eoi, k);
    match a {
        None => (None, aa),
        Some((lhs, e)) => if k < e && e <= t.len() {
            let (r, la) = parse_expr_loop(t, eoi, k, min, lhs, e);
            (r, merge_exec(aa, la))
        } else {
            proof {
                assert(false);
            }
            (Some((lhs, e)), aa)
        },
    }
}

fn parse_expr_loop(
    t: &[(AsmToken, Span)],
    eoi: usize,
    k0: usize,
    min: u8,
    lhs: Spanned<ConstantExpr>,
    p: usize,
) -> (r: (Option<(Spanned<ConstantExpr>, usize)>, ExecAlt))
    requires
        p <= t@.len(),
    ensures
        ({
            let (sv, sa) = p_expr_loop(tokens_view(t@), eoi, k0 as int, min as int, expr_v(lhs), p as int);
            &&& match sv {
                Some((v, e)) => r.0 matches Some((x, e2)) && expr_v(x) == v && e2 == e && p <= e2 <= t@.len(),
                None => r.0 is None,
            }
            &&& alt_v(r.1) == sa
        }),
    decreases t@.len() - p, 0int,
{
    if p >= t.len() {
        return (Some((lhs, p)), merge_exec(fail3_exec(p, Expected::Multiply, Expected::Divide, Expected::Modulo), fail2_exec(p, Expected::Add, Expected::Subtract)));
    }
    let (op, power, pre) = match &t[p].0 {
        AsmToken::Multiply => (Some(ArithmeticOperator::Multiply), 10u8, None),
        AsmToken::Divide => (Some(ArithmeticOperator::Divide), 10u8, None),
        AsmToken::Modulo => (Some(ArithmeticOperator::Modulo), 10u8, None),
        AsmToken::Add => (Some(ArithmeticOperator::Add), 8u8, fail3_exec(p, Expected::Multiply, Expected::Divide, Expected::Modulo)),
        AsmToken::Subtract => (Some(ArithmeticOperator::Subtract), 8u8, fail3_exec(p, Expected::Multiply, Expected::Divide, Expected::Modulo)),
        _ => (None, 0u8, fail3_exec(p, Expected::Multiply, Expected::Divide, Expected::Modulo)),
    };
    match op {
        None => (Some((lhs, p)), merge_exec(pre, fail2_exec(p, Expected::Add, Expected::Subtract))),
        Some(op) => {
            let post = if power == 10 { fail2_exec(p, Expected::Add, Expected::Subtract) } else { None };
            if power >= min {
                let (r, ra) = parse_expr(t, eoi, p + 1, power + 1);
                match r {
                    Some((rhs, e)) => if p < e && e <= t.len() {
                        let sp = span_of_exec(t, eoi, k0, e);
                        let node = Spanned {
                            inner: ConstantExpr::Arithmetic {
                                left: Box::new(lhs),
                                right: Box::new(rhs),
                                operator: Spanned { inner: op, span: t[p].1 },
                            },
                            span: sp,
                        };
                        let (res, la) = parse_expr_loop(t, eoi, k0, min, node, e);
                        (res, merge_exec(merge_exec(pre, ra), la))
                    } else {
                        (Some((lhs, p)), merge_exec(merge_exec(pre, ra), post))
                    },
                    None => (Some((lhs, p)), merge_exec(merge_exec(pre, ra), post)),
                }
            } else {
                (Some((lhs, p)), merge_exec(pre, post))
            }
        },
    }
}

fn parse_core(t: &[(AsmToken, Span)], eoi: usize, k: usize) -> (r: (Option<(CoreOperand, usize)>, ExecAlt))
    requires
        k <= t@.len(),
    ensures
        ({
            let (sv, sa) = p_core(tokens_view(t@), eoi, k as int);
            &&& match sv {
                Some((v, e)) => r.0 matches Some((x, e2)) && core_v(x) == v && e2 == e && k < e2 <= t@.len(),
                None => r.0 is None,
            }
            &&& alt_v(r.1) == sa
        }),
{
    let (x, xa) = parse_expr(t, eoi, k, 0);
    match x {
        Some((ev, e)) => (Some((CoreOperand::Constant(ev), e)), xa),
        None => {
            let (r, ra) = parse_register(t, k);
            match r {
                Some((reg, e)) => (Some((CoreOperand::Register(reg), e)), merge_exec(xa, ra)),
                None => (None, merge_exec(xa, ra)),
            }
        },
    }
}

fn parse_operand(t: &[(AsmToken, Span)], eoi: usize, k: usize) -> (r: (Option<(Spanned<Operand>, usize)>, ExecAlt))
    requires
        k <= t@.len(),
    ensures
        ({
            let (sv, sa) = p_operand(tokens_view(t@), eoi, k as int);
            &&& match sv {
                Some((v, e)) => r.0 matches Some((x, e2)) && operand_v(x) == v && e2 == e && k < e2 <= t@.len(),
                None => r.0 is None,
            }
            &&& alt_v(r.1) == sa
        }),
{
    let n = t.len();
    assert(tokens_view(t@).len() == n);
    let (c, ca) = parse_core(t, eoi, k);
    match c {
        Some((cv, e)) => {
            let sp = span_of_exec(t, eoi, k, e);
            (Some((Spanned { inner: Operand { deref: false, core: cv }, span: sp }, e)), ca)
        },
        None => if is_tok_exec(t, k, Expected::LeftBracket) {
            let (c2, ca2) = parse_core(t, eoi, k + 1);
            let alt = merge_exec(ca, ca2);
            match c2 {
                Some((cv, e)) => if is_tok_exec(t, e, Expected::RightBracket) {
                    let sp = span_of_exec(t, eoi, k, e + 1);
                    (Some((Spanned { inner: Operand { deref: true, core: cv }, span: sp }, e + 1)), alt)
                } else {
                    (None, merge_exec(alt, fail_exec(e, Expected::RightBracket)))
                },
                None => (None, alt),
            }
        } else {
            (None, merge_exec(ca, fail_exec(k, Expected::LeftBracket)))
        },
    }
}

fn parse_output_inner(t: &[(AsmToken, Span)], eoi: usize, k: usize) -> (r: (Option<(OutputOperand, usize)>, ExecAlt))
    requires
        k <= t@.len(),
    ensures
        ({
            let (sv, sa) = p_output_inner(tokens_view(t@), eoi, k as int);
            &&& match sv {
                Some((v, e)) => r.0 matches Some((x, e2)) && output_v(Spanned { inner: x, span: Span { start: 0, end: 0 } }).inner == v
                    && e2 == e && k < e2 <= t@.len(),
                None => r.0 is None,
            }
            &&& alt_v(r.1) == sa
        }),
{
    let (r, ra) = parse_register(t, k);
    match r {
        Some((reg, e)) => (Some((OutputOperand::RegisterDeref(reg), e)), ra),
        None => {
            let (x, xa) = parse_expr(t, eoi, k, 0);
            match x {
                Some((ev, e)) => (Some((OutputOperand::ConstantDeref(ev), e)), merge_exec(ra, xa)),
                None => (None, merge_exec(ra, xa)),
            }
        },
    }
}

fn parse_into(t: &[(AsmToken, Span)], eoi: usize, k: usize) -> (r: (Option<(Spanned<OutputOperand>, usize)>, ExecAlt))
    requires
        k <= t@.len(),
    ensures
        ({
            let (sv, sa) = p_into(tokens_view(t@), eoi, k as int);
            &&& match sv {
                Some((v, e)) => r.0 matches Some((x, e2)) && output_v(x) == v && e2 == e && k < e2 <= t@.len(),
                None => r.0 is None,
            }
            &&& alt_v(r.1) == sa
        }),
{
    let n = t.len();
    assert(tokens_view(t@).len() == n);
    let (r, ra) = parse_register(t, k);
    match r {
        Some((reg, e)) => {
            let sp = span_of_exec(t, eoi, k, e);
            (Some((Spanned { inner: OutputOperand::Register(reg), span: sp }, e)), ra)
        },
        None => if is_tok_exec(t, k, Expected::LeftBracket) {
            let (o, oa) = parse_output_inner(t, eoi, k + 1);
            let alt = merge_exec(ra, oa);
            match o {
                Some((ov, e)) => if is_tok_exec(t, e, Expected::RightBracket) {
                    let sp = span_of_exec(t, eoi, k, e + 1);
                    (Some((Spanned { inner: ov, span: sp }, e + 1)), alt)
                } else {
                    (None, merge_exec(alt, fail_exec(e, Expected::RightBracket)))
                },
                None => (None, alt),
            }
        } else {
            (None, merge_exec(ra, fail_exec(k, Expected::LeftBracket)))
        },
    }
}

fn parse_operands_more(t: &[(AsmToken, Span)], eoi: usize, p: usize, acc: Vec<Spanned<Operand>>)
    -> (r: (Vec<Spanned<Operand>>, usize, ExecAlt))
    requires
        p <= t@.len(),
    ensures
        ({
            let (sv, se, sa) = p_operands_more(tokens_view(t@), eoi, p as int, operands_v(acc@));
            &&& operands_v(r.0@) == sv
            &&& r.1 == se
            &&& p <= r.1 <= t@.len()
            &&& alt_v(r.2) == sa
        }),
    decreases t@.len() - p,
{
    let n = t.len();
    assert(tokens_view(t@).len() == n);
    if is_tok_exec(t, p, Expected::Comma) {
        let (o, oa) = parse_operand(t, eoi, p + 1);
        match o {
            Some((ov, e)) => {
                let ghost before = acc@;
                let ghost v = operand_v(ov);
                let mut acc = acc;
                acc.push(ov);
                assert(operands_v(acc@) =~= operands_v(before).push(v));
                let (r, e2, ra) = parse_operands_more(t, eoi, e, acc);
                (r, e2, merge_exec(oa, ra))
            },
            None => (acc, p, oa),
        }
    } else {
        (acc, p, fail_exec(p, Expected::Comma))
    }
}

fn parse_operands(t: &[(AsmToken, Span)], eoi: usize, k: usize) -> (r: (Vec<Spanned<Operand>>, usize, ExecAlt))
    requires
        k <= t@.len(),
    ensures
        ({
            let (sv, se, sa) = p_operands(tokens_view(t@), eoi, k as int);
            &&& operands_v(r.0@) == sv
            &&& r.1 == se
            &&& k <= r.1 <= t@.len()
            &&& alt_v(r.2) == sa
        }),
{
    let (o, oa) = parse_operand(t, eoi, k);
    match o {
        Some((ov, e)) => {
            let ghost v = operand_v(ov);
            let mut acc: Vec<Spanned<Operand>> = Vec::new();
            acc.push(ov);
            assert(operands_v(acc@) =~= seq![v]);
            let (r, e2, ra) = parse_operands_more(t, eoi, e, acc);
            (r, e2, merge_exec(oa, ra))
        },
        None => {
            let acc: Vec<Spanned<Operand>> = Vec::new();
            assert(operands_v(acc@) =~= Seq::<Spanned<OperandV>>::empty());
            (acc, k, oa)
        },
    }
}

fn parse_output(t: &[(AsmToken, Span)], eoi: usize, p: usize) -> (r: (Option<Spanned<OutputOperand>>, usize, ExecAlt))
    requires
        p <= t@.len(),
    ensures
        ({
            let (sv, se, sa) = p_output(tokens_view(t@), eoi, p as int);
            &&& match sv {
                Some(v) => r.0 matches Some(x) && output_v(x) == v,
                None => r.0 is None,
            }
            &&& r.1 == se
            &&& p <= r.1 <= t@.len()
            &&& alt_v(r.2) == sa
        }),
{
    let n = t.len();
    assert(tokens_view(t@).len() == n);
    if is_tok_exec(t, p, Expected::Into) {
        let (o, oa) = parse_into(t, eoi, p + 1);
        match o {
            Some((ov, e)) => (Some(ov), e, oa),
            None => (None, p, oa),
        }
    } else {
        (None, p, fail_exec(p, Expected::Into))
    }
}

fn parse_instr(t: &[(AsmToken, Span)], eoi: usize, k: usize) -> (r: (Option<(Spanned<Instruction>, usize)>, ExecAlt))
    requires
        k <= t@.len(),
    ensures
        ({
            let (sv, sa) = p_instr(tokens_view(t@), eoi, k as int);
            &&& match sv {
                Some((v, e)) => r.0 matches Some((x, e2)) && instruction_v(x) == v && e2 == e && k < e2 <= t@.len(),
                None => r.0 is None,
            }
            &&& alt_v(r.1) == sa
        }),
{
    let (m, ma) = parse_ident(t, k);
    let ma = relabel_exec(ma, k, Expected::InstructionMnemonic);
    match m {
        None => (None, ma),
        Some((s, k1)) => {
            let mspan = t[k].1;
            let (ops, p, oa) = parse_operands(t, eoi, k1);
            let (out, e, ua) = parse_output(t, eoi, p);
            let dspan = span_of_exec(t, eoi, k1, e);
            let ispan = span_of_exec(t, eoi, k, e);
            let detail = Spanned { inner: InstructionDetail { operands: ops, output: out }, span: dspan };
            let instr = Spanned { inner: Instruction { mnemonic: Spanned { inner: s, span: mspan }, detail }, span: ispan };
            (Some((instr, e)), merge_exec(ma, merge_exec(oa, ua)))
        },
    }
}

fn parse_annotation(t: &[(AsmToken, Span)], eoi: usize, k: usize) -> (r: (Option<(Spanned<Annotation>, usize)>, ExecAlt))
    requires
        k <= t@.len(),
    ensures
        ({
            let (sv, sa) = p_annotation(tokens_view(t@), eoi, k as int);
            &&& match sv {
                Some((v, e)) => r.0 matches Some((x, e2)) && annotation_v(x) == v && e2 == e && k < e2 <= t@.len(),
                None => r.0 is None,
            }
            &&& alt_v(r.1) == sa
        }),
{
    let n = t.len();
    assert(tokens_view(t@).len() == n);
    let (i, ia) = parse_ident(t, k);
    let (lab, la) = match i {
        Some((s, k1)) => if is_tok_exec(t, k1, Expected::Colon) {
            (Some((Annotation::Label(s), k1 + 1)), ia)
        } else {
            (None, merge_exec(ia, fail_exec(k1, Expected::Colon)))
        },
        None => (None, ia),
    };
    let la = relabel_exec(la, k, Expected::Label);
    match lab {
        Some((av, e)) => {
            let sp = span_of_exec(t, eoi, k, e);
            (Some((Spanned { inner: av, span: sp }, e)), relabel_exec(la, k, Expected::Annotation))
        },
        None => {
            let (l, lla) = parse_literal(t, k);
            let (off, oa) = match l {
                Some((v, k1)) => if is_tok_exec(t, k1, Expected::Colon) {
                    (Some((Annotation::Offset(v), k1 + 1)), lla)
                } else {
                    (None, merge_exec(lla, fail_exec(k1, Expected::Colon)))
                },
                None => (None, lla),
            };
            let alt = relabel_exec(merge_exec(la, relabel_exec(oa, k, Expected::Offset)), k, Expected::Annotation);
            match off {
                Some((av, e)) => {
                    let sp = span_of_exec(t, eoi, k, e);
                    (Some((Spanned { inner: av, span: sp }, e)), alt)
                },
                None => (None, alt),
            }
        },
    }
}

fn parse_line(t: &[(AsmToken, Span)], eoi: usize, k: usize) -> (r: (Spanned<Line>, usize, ExecAlt))
    requires
        k <= t@.len(),
    ensures
        ({
            let (sv, se, sa) = p_line(tokens_view(t@), eoi, k as int);
            &&& line_v(r.0) == sv
            &&& r.1 == se
            &&& k <= r.1 <= t@.len()
            &&& alt_v(r.2) == sa
        }),
{
    let (a, aa) = parse_annotation(t, eoi, k);
    let (ann, k1) = match a {
        Some((av, e)) => (Some(av), e),
        None => (None, k),
    };
    let (i, ia) = parse_instr(t, eoi, k1);
    let (ins, e) = match i {
        Some((iv, e)) => (Some(iv), e),
        None => (None, k1),
    };
    let sp = span_of_exec(t, eoi, k, e);
    (Spanned { inner: Line { annotation: ann, instruction: ins }, span: sp }, e, merge_exec(aa, ia))
}

fn parse_lines_more(t: &[(AsmToken, Span)], eoi: usize, p: usize, acc: Vec<Spanned<Line>>)
    -> (r: (Vec<Spanned<Line>>, usize, ExecAlt))
    requires
        p <= t@.len(),
    ensures
        ({
            let (sv, se, sa) = p_lines_more(tokens_view(t@), eoi, p as int, lines_v(acc@));
            &&& lines_v(r.0@) == sv
            &&& r.1 == se
            &&& p <= r.1 <= t@.len()
            &&& alt_v(r.2) == sa
        }),
    decreases t@.len() - p,
{
    let n = t.len();
    assert(tokens_view(t@).len() == n);
    if is_tok_exec(t, p, Expected::Newline) {
        let (l, e, la) = parse_line(t, eoi, p + 1);
        let ghost before = acc@;
        let ghost v = line_v(l);
        let mut acc = acc;
        acc.push(l);
        assert(lines_v(acc@) =~= lines_v(before).push(v));
        let (r, e2, ra) = parse_lines_more(t, eoi, e, acc);
        (r, e2, merge_exec(la, ra))
    } else {
        (acc, p, fail_exec(p, Expected::Newline))
    }
}

/// A parse error: the span of the token where the parser got furthest, the
/// token found there (`None` at the end of input) and what was expected.
#[derive(Debug)]
pub struct ParseError {
    pub span: Span,
    pub found: Option<AsmToken>,
    pub expected: Vec<Expected>,
}

impl ParseError {
    pub open spec fn view(&self) -> ParseErrorV {
        ParseErrorV {
            span: self.span,
            found: match self.found {
                Some(tok) => Some(tok@),
                None => None,
            },
            expected: self.expected@,
        }
    }
}

/// Parses the tokens of a text of `eoi` bytes into lines.
pub fn parse_tokens(t: &[(AsmToken, Span)], eoi: usize) -> (r: Result<Vec<Spanned<Line>>, ParseError>)
    ensures
        match spec_parse(tokens_view(t@), eoi) {
            Ok(ls) => r matches Ok(v) && lines_v(v@) == ls,
            Err(e) => r matches Err(x) && x.view() == e,
        },
{
    let n = t.len();
    assert(tokens_view(t@).len() == n);
    let (k0, a0) = if is_tok_exec(t, 0, Expected::Newline) { (1usize, None) } else { (0usize, fail_exec(0, Expected::Newline)) };
    let (l, e, la) = parse_line(t, eoi, k0);
    let ghost lv = line_v(l);
    let mut acc: Vec<Spanned<Line>> = Vec::new();
    acc.push(l);
    assert(lines_v(acc@) =~= seq![lv]);
    let (ls, e2, ra) = parse_lines_more(t, eoi, e, acc);
    if e2 == n {
        Ok(ls)
    } else {
        let alt = merge_exec(merge_exec(a0, merge_exec(la, ra)), fail_exec(e2, Expected::EndOfInput));
        match alt {
            Some((pos, exp)) => {
                let (span, found) = if pos < n {
                    (t[pos].1, Some(t[pos].0.duplicate()))
                } else {
                    (Span::new(eoi, eoi), None)
                };
                Err(ParseError { span, found, expected: exp })
            },
            None => {
                proof {
                    assert(false);
                }
                Err(ParseError { span: Span::new(eoi, eoi), found: None, expected: Vec::new() })
            },
        }
    }
}

/// Parses assembly source into lines, or gives the error where parsing
/// got furthest. The spans of the statements read, and that of the error,
/// can be used to slice the source.
pub fn parse_asm_file(input: &str) -> (r: Result<Vec<Spanned<Line>>, Vec<ParseError>>)
    requires
        spec_lex(encode_utf8(input@), 0) is Some,
    ensures
        match spec_parse(spec_lex(encode_utf8(input@), 0).unwrap(), encode_utf8(input@).len() as usize) {
            Ok(ls) => r matches Ok(v) && lines_v(v@) == ls,
            Err(e) => r matches Err(errs) && errs@.len() == 1 && errs@[0].view() == e,
        },
        r matches Ok(v) ==> text_spans_ok(encode_utf8(input@), v@),
        r matches Err(errs) ==> forall|i: int| 0 <= i < errs@.len() ==> span_ok(encode_utf8(input@), #[trigger] errs@[i].span),
{
    let bytes = input.as_bytes();
    proof {
        assert(bytes@.len() == spec_slice_len(bytes));
        lemma_parse_spans(input@);
    }
    let tokens = spanned_tokens(input);
    let eoi = input.len();
    match parse_tokens(tokens.as_slice(), eoi) {
        Ok(lines) => {
            proof {
                let b = encode_utf8(input@);
                let ls = lines_v(lines@);
                assert forall|i: int| 0 <= i < lines@.len() && (#[trigger] lines@[i]).inner.instruction is Some implies span_ok(
                    b,
                    lines@[i].inner.instruction.unwrap().span,
                ) by {
                    assert(ls[i] == line_v(lines@[i]));
                    assert(line_spans_ok(b, ls[i]));
                }
            }
            Ok(lines)
        },
        Err(e) => {
            let mut errs: Vec<ParseError> = Vec::new();
            errs.push(e);
            Err(errs)
        },
    }
}

} // verus!
