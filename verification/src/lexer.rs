use vstd::prelude::*;

use crate::ast::Span;
use crate::common::{reg_from_index, Register};
use crate::controls::hex_char_value;
use crate::text::{hex_digit, push_char};
use vstd::utf8::{
    encode_utf8, encode_utf8_valid_utf8, is_char_boundary, is_char_boundary_iff_not_is_continuation_byte,
    is_char_boundary_start_end_of_seq, length_of_first_scalar, pop_first_scalar, valid_utf8,
};

verus! {

/// A token of assembly source.
#[derive(Debug, Clone, PartialEq, Eq)]
pub enum AsmToken {
    Register(Register),
    LiteralHex(u8),
    LiteralDec(u8),
    LiteralBin(u8),
    Identifier(String),
    /// A run of letters, digits and underscores that is neither a number
    /// nor a name.
    Ambiguous(String),
    Add,
    Subtract,
    Multiply,
    Divide,
    Modulo,
    Into,
    Comma,
    LeftBracket,
    RightBracket,
    LeftParen,
    RightParen,
    Colon,
    /// Whitespace and comments that hold at least one line break.
    Newline,
    /// Text that starts no token.
    Unrecognized,
}

/// A token as a mathematical value.
pub enum TokenView {
    Register(Register),
    LiteralHex(u8),
    LiteralDec(u8),
    LiteralBin(u8),
    Identifier(Seq<char>),
    Ambiguous(Seq<char>),
    Add,
    Subtract,
    Multiply,
    Divide,
    Modulo,
    Into,
    Comma,
    LeftBracket,
    RightBracket,
    LeftParen,
    RightParen,
    Colon,
    Newline,
    Unrecognized,
}

impl View for AsmToken {
    type V = TokenView;

    open spec fn view(&self) -> TokenView {
        match self {
            AsmToken::Register(r) => TokenView::Register(*r),
            AsmToken::LiteralHex(v) => TokenView::LiteralHex(*v),
            AsmToken::LiteralDec(v) => TokenView::LiteralDec(*v),
            AsmToken::LiteralBin(v) => TokenView::LiteralBin(*v),
            AsmToken::Identifier(s) => TokenView::Identifier(s@),
            AsmToken::Ambiguous(s) => TokenView::Ambiguous(s@),
            AsmToken::Add => TokenView::Add,
            AsmToken::Subtract => TokenView::Subtract,
            AsmToken::Multiply => TokenView::Multiply,
            AsmToken::Divide => TokenView::Divide,
            AsmToken::Modulo => TokenView::Modulo,
            AsmToken::Into => TokenView::Into,
            AsmToken::Comma => TokenView::Comma,
            AsmToken::LeftBracket => TokenView::LeftBracket,
            AsmToken::RightBracket => TokenView::RightBracket,
            AsmToken::LeftParen => TokenView::LeftParen,
            AsmToken::RightParen => TokenView::RightParen,
            AsmToken::Colon => TokenView::Colon,
            AsmToken::Newline => TokenView::Newline,
            AsmToken::Unrecognized => TokenView::Unrecognized,
        }
    }
}

pub open spec fn is_digit(c: u8) -> bool {
    48 <= c <= 57
}

pub open spec fn is_hex_digit(c: u8) -> bool {
    is_digit(c) || 65 <= c <= 70 || 97 <= c <= 102
}

/// A digit of the given base (2, 10 or 16).
pub open spec fn is_base_digit(c: u8, base: int) -> bool {
    if base == 2 {
        c == 48 || c == 49
    } else if base == 10 {
        is_digit(c)
    } else {
        is_hex_digit(c)
    }
}

/// A letter or an underscore.
pub open spec fn is_alpha_(c: u8) -> bool {
    65 <= c <= 90 || 97 <= c <= 122 || c == 95
}

/// A character of a word: a letter, a digit or an underscore.
pub open spec fn is_word(c: u8) -> bool {
    is_alpha_(c) || is_digit(c)
}

/// Space, tab or line feed.
pub open spec fn is_ws(c: u8) -> bool {
    c == 32 || c == 9 || c == 10
}

/// The value of a hexadecimal digit.
pub open spec fn digit_value(c: u8) -> int {
    if is_digit(c) {
        c - 48
    } else if 65 <= c <= 70 {
        c - 55
    } else {
        c - 87
    }
}

/// Hexadecimal digits read as the values they are written for: the digit
/// that `hex_digit` prints for each value from 0 to 15 reads back as that
/// value, and a lower-case letter from `a` to `f` reads as its capital.
pub proof fn lemma_hex_digits_read_back(k: int, c: u8)
    requires
        0 <= k < 16,
    ensures
        digit_value((hex_digit(k) as u32) as u8) == k,
        97 <= c <= 102 ==> digit_value(c) == digit_value((c - 32) as u8),
{
}

/// The number that the digits `b[i..j]` write in the given base.
pub open spec fn digits_value(b: Seq<u8>, i: int, j: int, base: int) -> int
    decreases j - i,
{
    if j <= i {
        0
    } else {
        digits_value(b, i, j - 1, base) * base + digit_value(b[j - 1])
    }
}

/// Every byte of `b[i..j]` is a digit of the base.
pub open spec fn all_digits(b: Seq<u8>, i: int, j: int, base: int) -> bool {
    forall|k: int| i <= k < j ==> is_base_digit(#[trigger] b[k], base)
}

/// `b[i..j]` has at least three bytes and ends in `_` and the suffix letter.
pub open spec fn suffixed(b: Seq<u8>, i: int, j: int, s: u8) -> bool {
    j - i >= 3 && b[j - 2] == 95 && b[j - 1] == s
}

/// A decimal literal: one to three digits, then `_d`.
pub open spec fn is_dec_word(b: Seq<u8>, i: int, j: int) -> bool {
    suffixed(b, i, j, 100) && j - i <= 5 && all_digits(b, i, j - 2, 10)
}

/// A binary literal: eight binary digits, or one to eight then `_b`.
pub open spec fn is_bin_word(b: Seq<u8>, i: int, j: int) -> bool {
    ||| j - i == 8 && all_digits(b, i, j, 2)
    ||| suffixed(b, i, j, 98) && j - i <= 10 && all_digits(b, i, j - 2, 2)
}

/// A name: a letter or underscore, then at least three more characters, or
/// two more of which the last is not a lower-case `h`.
pub open spec fn is_ident_word(b: Seq<u8>, i: int, j: int) -> bool {
    is_alpha_(b[i]) && (j - i >= 4 || (j - i == 3 && b[i + 2] != 104))
}

/// A register: `R` and one hexadecimal digit.
pub open spec fn is_reg_word(b: Seq<u8>, i: int, j: int) -> bool {
    j - i == 2 && b[i] == 82 && is_hex_digit(b[i + 1])
}

/// A hexadecimal literal: one or two digits, then optionally `_h`.
pub open spec fn is_hex_word(b: Seq<u8>, i: int, j: int) -> bool {
    ||| 1 <= j - i <= 2 && all_digits(b, i, j, 16)
    ||| suffixed(b, i, j, 104) && j - i <= 4 && all_digits(b, i, j - 2, 16)
}

/// The characters of the ASCII bytes `b[i..j]`.
pub open spec fn ascii_text(b: Seq<u8>, i: int, j: int) -> Seq<char> {
    Seq::new((j - i) as nat, |k: int| b[i + k] as char)
}

/// The token that the word `b[i..j]` is, or `None` for a decimal literal
/// above 255. Decimal and binary literals and the longer names come first,
/// then registers, then hexadecimal literals; any other word that starts
/// with a letter or an underscore is a name, and the rest are ambiguous.
pub open spec fn classify(b: Seq<u8>, i: int, j: int) -> Option<TokenView> {
    if is_dec_word(b, i, j) {
        let v = digits_value(b, i, j - 2, 10);
        if v <= 255 {
            Some(TokenView::LiteralDec(v as u8))
        } else {
            None
        }
    } else if is_bin_word(b, i, j) {
        let n = if j - i == 8 && all_digits(b, i, j, 2) { j } else { j - 2 };
        Some(TokenView::LiteralBin(digits_value(b, i, n, 2) as u8))
    } else if is_ident_word(b, i, j) {
        Some(TokenView::Identifier(ascii_text(b, i, j)))
    } else if is_reg_word(b, i, j) {
        Some(TokenView::Register(reg_from_index(digit_value(b[i + 1])).unwrap()))
    } else if is_hex_word(b, i, j) {
        let n = if j - i <= 2 { j } else { j - 2 };
        Some(TokenView::LiteralHex(digits_value(b, i, n, 16) as u8))
    } else if is_alpha_(b[i]) {
        Some(TokenView::Identifier(ascii_text(b, i, j)))
    } else {
        Some(TokenView::Ambiguous(ascii_text(b, i, j)))
    }
}

/// Whether a byte is a hexadecimal digit: `0` to `9`, `A` to `F` or `a` to
/// `f`.
pub open spec fn hex_digit_byte(c: u8) -> bool {
    ('0' as u8) <= c <= ('9' as u8) || ('A' as u8) <= c <= ('F' as u8) || ('a' as u8) <= c <= ('f' as u8)
}

/// A word of one or two hexadecimal digits, in either case, is a
/// hexadecimal literal with the value those digits write: one digit its
/// own value, two digits sixteen times the first plus the second.
pub proof fn lemma_short_hex_words(b: Seq<u8>, i: int, j: int)
    requires
        0 <= i < j <= b.len(),
        j - i <= 2,
        forall|k: int| i <= k < j ==> hex_digit_byte(#[trigger] b[k]),
    ensures
        classify(b, i, j) == Some(TokenView::LiteralHex(
            if j - i == 1 {
                hex_char_value(b[i] as char) as u8
            } else {
                (hex_char_value(b[i] as char) * 16 + hex_char_value(b[i + 1] as char)) as u8
            },
        )),
{
    assert(hex_digit_byte(b[i]));
    assert(hex_digit_byte(b[j - 1]));
    assert(all_digits(b, i, j, 16));
    assert(digit_value(b[i]) == hex_char_value(b[i] as char));
    assert(digit_value(b[j - 1]) == hex_char_value(b[j - 1] as char));
    assert(digits_value(b, i, i, 16) == 0);
    assert(digits_value(b, i, i + 1, 16) == digit_value(b[i]));
    if j - i == 2 {
        assert(digits_value(b, i, i + 2, 16) == digit_value(b[i]) * 16 + digit_value(b[i + 1]));
    }
}

/// The end of the word that starts at `i`.
pub open spec fn word_end(b: Seq<u8>, i: int) -> int
    decreases b.len() - i,
{
    if 0 <= i < b.len() && is_word(b[i]) {
        word_end(b, i + 1)
    } else {
        i
    }
}

/// A `*/` starts at or after `j`.
pub open spec fn has_close(b: Seq<u8>, j: int) -> bool {
    exists|k: int| j <= k && k + 1 < b.len() && #[trigger] b[k] == 42 && b[k + 1] == 47
}

/// The end of a run of whitespace and comments from `i`. In mode 1 the run
/// is inside a line comment, in mode 2 inside a block comment. A block
/// comment ends at the first `*/`; one that is never closed is no comment.
pub open spec fn run_end(b: Seq<u8>, i: int, mode: int) -> int
    decreases b.len() - i,
{
    if i < 0 || i >= b.len() {
        i
    } else if mode == 1 {
        run_end(b, i + 1, if b[i] == 10 { 0 } else { 1 })
    } else if mode == 2 {
        if b[i] == 42 && i + 1 < b.len() && b[i + 1] == 47 {
            run_end(b, i + 2, 0)
        } else {
            run_end(b, i + 1, 2)
        }
    } else if is_ws(b[i]) {
        run_end(b, i + 1, 0)
    } else if b[i] == 47 && i + 1 < b.len() && b[i + 1] == 47 {
        run_end(b, i + 2, 1)
    } else if b[i] == 47 && i + 1 < b.len() && b[i + 1] == 42 && has_close(b, i + 2) {
        run_end(b, i + 2, 2)
    } else {
        i
    }
}

/// `b[i..j]` holds a line feed.
pub open spec fn has_newline(b: Seq<u8>, i: int, j: int) -> bool {
    exists|k: int| i <= k < j && #[trigger] b[k] == 10
}

/// The end of the UTF-8 continuation bytes from `j`.
pub open spec fn cont_end(b: Seq<u8>, j: int) -> int
    decreases b.len() - j,
{
    if 0 <= j < b.len() && 128 <= b[j] < 192 {
        cont_end(b, j + 1)
    } else {
        j
    }
}

/// The one-character tokens.
pub open spec fn punct(c: u8) -> Option<TokenView> {
    if c == 43 { Some(TokenView::Add) }
    else if c == 45 { Some(TokenView::Subtract) }
    else if c == 42 { Some(TokenView::Multiply) }
    else if c == 47 { Some(TokenView::Divide) }
    else if c == 37 { Some(TokenView::Modulo) }
    else if c == 44 { Some(TokenView::Comma) }
    else if c == 91 { Some(TokenView::LeftBracket) }
    else if c == 93 { Some(TokenView::RightBracket) }
    else if c == 40 { Some(TokenView::LeftParen) }
    else if c == 41 { Some(TokenView::RightParen) }
    else if c == 58 { Some(TokenView::Colon) }
    else { None }
}

/// What the lexer does at `i`: the token found there, if any (`None` for
/// whitespace and comments without a line break), and where the next one
/// starts; `Err` for a decimal literal above 255.
pub open spec fn lex_step(b: Seq<u8>, i: int) -> Result<(Option<TokenView>, int), ()> {
    let e = run_end(b, i, 0);
    if e > i {
        Ok((if has_newline(b, i, e) { Some(TokenView::Newline) } else { None }, e))
    } else if is_word(b[i]) {
        let j = word_end(b, i);
        match classify(b, i, j) {
            Some(t) => Ok((Some(t), j)),
            None => Err(()),
        }
    } else if b[i] == 45 && i + 1 < b.len() && b[i + 1] == 62 {
        Ok((Some(TokenView::Into), i + 2))
    } else if punct(b[i]) is Some {
        Ok((punct(b[i]), i + 1))
    } else {
        Ok((Some(TokenView::Unrecognized), cont_end(b, i + 1)))
    }
}

/// A word from `i` holds only word characters and ends at the first other
/// byte, or at the end of the text.
pub proof fn lemma_word_end(b: Seq<u8>, i: int)
    requires
        0 <= i <= b.len(),
    ensures
        i <= word_end(b, i) <= b.len(),
        forall|k: int| i <= k < word_end(b, i) ==> is_word(#[trigger] b[k]),
        word_end(b, i) < b.len() ==> !is_word(b[word_end(b, i)]),
    decreases b.len() - i,
{
    if i < b.len() && is_word(b[i]) {
        lemma_word_end(b, i + 1);
    }
}

/// A run of whitespace and comments from `i` ends within the text.
pub proof fn lemma_run_end(b: Seq<u8>, i: int, mode: int)
    requires
        0 <= i <= b.len(),
    ensures
        i <= run_end(b, i, mode) <= b.len(),
    decreases b.len() - i,
{
    if i < b.len() {
        if mode == 1 {
            lemma_run_end(b, i + 1, if b[i] == 10 { 0 } else { 1 });
        } else if mode == 2 {
            if b[i] == 42 && i + 1 < b.len() && b[i + 1] == 47 {
                lemma_run_end(b, i + 2, 0);
            } else {
                lemma_run_end(b, i + 1, 2);
            }
        } else if is_ws(b[i]) {
            lemma_run_end(b, i + 1, 0);
        } else if b[i] == 47 && i + 1 < b.len() && b[i + 1] == 47 {
            lemma_run_end(b, i + 2, 1);
        } else if b[i] == 47 && i + 1 < b.len() && b[i + 1] == 42 && has_close(b, i + 2) {
            lemma_run_end(b, i + 2, 2);
        }
    }
}

/// UTF-8 continuation bytes from `j` end within the text, at a byte that is
/// not one.
pub proof fn lemma_cont_end(b: Seq<u8>, j: int)
    requires
        0 <= j <= b.len(),
    ensures
        j <= cont_end(b, j) <= b.len(),
        cont_end(b, j) < b.len() ==> !(128 <= b[cont_end(b, j)] < 192),
    decreases b.len() - j,
{
    if j < b.len() && 128 <= b[j] < 192 {
        lemma_cont_end(b, j + 1);
    }
}

/// The tokens of `b` from `i` on, each with its span, or `None` where a
/// decimal literal is above 255.
pub open spec fn spec_lex(b: Seq<u8>, i: int) -> Option<Seq<(TokenView, Span)>>
    decreases b.len() - i,
{
    if i < 0 || i >= b.len() {
        Some(Seq::empty())
    } else {
        match lex_step(b, i) {
            Err(()) => None,
            Ok((t, e)) => {
                proof {
                    lemma_lex_step(b, i);
                }
                match spec_lex(b, e) {
                    None => None,
                    Some(rest) => match t {
                        Some(tok) => Some(seq![(tok, Span { start: i as usize, end: e as usize })] + rest),
                        None => Some(rest),
                    },
                }
            },
        }
    }
}

/// Every step of the lexer moves forward and stays in the text.
pub proof fn lemma_lex_step(b: Seq<u8>, i: int)
    requires
        0 <= i < b.len(),
    ensures
        lex_step(b, i) matches Ok((_, e)) ==> i < e <= b.len(),
{
    lemma_run_end(b, i, 0);
    lemma_word_end(b, i);
    lemma_cont_end(b, i + 1);
}

pub open spec fn pow16(n: int) -> int
    decreases n,
{
    if n <= 0 {
        1
    } else {
        16 * pow16(n - 1)
    }
}

proof fn lemma_digits_bound(b: Seq<u8>, i: int, j: int, base: int)
    requires
        i <= j,
        base == 2 || base == 10 || base == 16,
        all_digits(b, i, j, base),
    ensures
        0 <= digits_value(b, i, j, base) < pow16(j - i),
    decreases j - i,
{
    if j > i {
        lemma_digits_bound(b, i, j - 1, base);
        let v = digits_value(b, i, j - 1, base);
        let p = pow16(j - 1 - i);
        let d = digit_value(b[j - 1]);
        assert(is_base_digit(b[j - 1], base));
        assert(0 <= d < base);
        assert(v * base + d < p * 16) by (nonlinear_arith)
            requires
                0 <= v < p,
                0 <= d < base,
                2 <= base <= 16,
        {
            assert(v * base <= (p - 1) * base);
            assert((p - 1) * base <= (p - 1) * 16);
        }
    }
}

fn is_digit_byte(c: u8) -> (r: bool)
    ensures
        r == is_digit(c),
{
    48 <= c && c <= 57
}

fn is_hex_byte(c: u8) -> (r: bool)
    ensures
        r == is_hex_digit(c),
{
    (48 <= c && c <= 57) || (65 <= c && c <= 70) || (97 <= c && c <= 102)
}

fn is_alpha_byte(c: u8) -> (r: bool)
    ensures
        r == is_alpha_(c),
{
    (65 <= c && c <= 90) || (97 <= c && c <= 122) || c == 95
}

fn is_word_byte(c: u8) -> (r: bool)
    ensures
        r == is_word(c),
{
    is_alpha_byte(c) || is_digit_byte(c)
}

fn is_base_byte(c: u8, base: u64) -> (r: bool)
    ensures
        r == is_base_digit(c, base as int),
{
    if base == 2 {
        c == 48 || c == 49
    } else if base == 10 {
        is_digit_byte(c)
    } else {
        is_hex_byte(c)
    }
}

fn digit_byte_value(c: u8) -> (v: u64)
    requires
        is_hex_digit(c),
    ensures
        v == digit_value(c),
{
    if 48 <= c && c <= 57 {
        (c - 48) as u64
    } else if 65 <= c && c <= 70 {
        (c - 55) as u64
    } else {
        (c - 87) as u64
    }
}

/// Whether every byte of `b[i..j]` is a digit of the base.
fn all_digits_exec(b: &[u8], i: usize, j: usize, base: u64) -> (r: bool)
    requires
        i <= j <= b@.len(),
    ensures
        r == all_digits(b@, i as int, j as int, base as int),
{
    let mut k = i;
    while k < j
        invariant
            i <= k <= j <= b@.len(),
            all_digits(b@, i as int, k as int, base as int),
        decreases j - k,
    {
        if !is_base_byte(b[k], base) {
            return false;
        }
        k = k + 1;
    }
    true
}

/// The number that the digits `b[i..j]` write.
fn digits_value_exec(b: &[u8], i: usize, j: usize, base: u64) -> (v: u64)
    requires
        i <= j <= b@.len(),
        j - i <= 8,
        base == 2 || base == 10 || base == 16,
        all_digits(b@, i as int, j as int, base as int),
    ensures
        v == digits_value(b@, i as int, j as int, base as int),
{
    let mut v: u64 = 0;
    let mut k = i;
    while k < j
        invariant
            i <= k <= j <= b@.len(),
            j - i <= 8,
            base == 2 || base == 10 || base == 16,
            all_digits(b@, i as int, j as int, base as int),
            v == digits_value(b@, i as int, k as int, base as int),
        decreases j - k,
    {
        proof {
            assert(all_digits(b@, i as int, (k + 1) as int, base as int));
            lemma_digits_bound(b@, i as int, k as int, base as int);
            lemma_pow16_bound((k - i) as int);
            assert(is_base_digit(b@[k as int], base as int));
            assert(v * base <= 0x1_0000_0000 * 16) by (nonlinear_arith)
                requires
                    v <= 0x1_0000_0000,
                    base <= 16,
            ;
        }
        let d = digit_byte_value(b[k]);
        v = v * base + d;
        k = k + 1;
    }
    v
}

proof fn lemma_pow16_bound(n: int)
    requires
        0 <= n <= 8,
    ensures
        pow16(n) <= 0x1_0000_0000,
    decreases n,
{
    reveal_with_fuel(pow16, 9);
}

/// The string of the ASCII bytes `b[i..j]`.
fn ascii_string(b: &[u8], i: usize, j: usize) -> (s: String)
    requires
        i <= j <= b@.len(),
    ensures
        s@ == ascii_text(b@, i as int, j as int),
{
    let mut s = String::new();
    let mut k = i;
    while k < j
        invariant
            i <= k <= j <= b@.len(),
            s@ == ascii_text(b@, i as int, k as int),
        decreases j - k,
    {
        push_char(&mut s, b[k] as char);
        assert(s@ =~= ascii_text(b@, i as int, (k + 1) as int));
        k = k + 1;
    }
    s
}

/// Whether `b[i..j]` has at least three bytes and ends in `_` and `s`.
fn suffixed_exec(b: &[u8], i: usize, j: usize, s: u8) -> (r: bool)
    requires
        i <= j <= b@.len(),
    ensures
        r == suffixed(b@, i as int, j as int, s),
{
    j - i >= 3 && b[j - 2] == 95 && b[j - 1] == s
}

/// The token that the word `b[i..j]` is.
fn classify_exec(b: &[u8], i: usize, j: usize) -> (r: Option<AsmToken>)
    requires
        i < j <= b@.len(),
    ensures
        match classify(b@, i as int, j as int) {
            Some(t) => r matches Some(x) && x@ == t,
            None => r is None,
        },
{
    let n = j - i;
    let is_dec = suffixed_exec(b, i, j, 100) && n <= 5 && all_digits_exec(b, i, j - 2, 10);
    if is_dec {
        let v = digits_value_exec(b, i, j - 2, 10);
        if v <= 255 {
            return Some(AsmToken::LiteralDec(v as u8));
        } else {
            return None;
        }
    }
    let bin8 = n == 8 && all_digits_exec(b, i, j, 2);
    let bin_b = suffixed_exec(b, i, j, 98) && n <= 10 && all_digits_exec(b, i, j - 2, 2);
    if bin8 || bin_b {
        let e = if bin8 { j } else { j - 2 };
        let v = digits_value_exec(b, i, e, 2);
        return Some(AsmToken::LiteralBin(v as u8));
    }
    if is_alpha_byte(b[i]) && (n >= 4 || (n == 3 && b[i + 2] != 104)) {
        return Some(AsmToken::Identifier(ascii_string(b, i, j)));
    }
    if n == 2 && b[i] == 82 && is_hex_byte(b[i + 1]) {
        let d = digit_byte_value(b[i + 1]);
        let r = Register::from_repr(d as u8);
        proof {
            crate::common::lemma_reg_index_roundtrip(Register::R0, d as int);
        }
        return match r {
            Some(reg) => Some(AsmToken::Register(reg)),
            None => None,
        };
    }
    let hex_short = 1 <= n && n <= 2 && all_digits_exec(b, i, j, 16);
    let hex_h = suffixed_exec(b, i, j, 104) && n <= 4 && all_digits_exec(b, i, j - 2, 16);
    if hex_short || hex_h {
        let e = if hex_short { j } else { j - 2 };
        let v = digits_value_exec(b, i, e, 16);
        return Some(AsmToken::LiteralHex(v as u8));
    }
    if is_alpha_byte(b[i]) {
        Some(AsmToken::Identifier(ascii_string(b, i, j)))
    } else {
        Some(AsmToken::Ambiguous(ascii_string(b, i, j)))
    }
}

/// The end of the word that starts at `i`.
fn word_end_exec(b: &[u8], i: usize) -> (j: usize)
    requires
        i <= b@.len(),
    ensures
        j == word_end(b@, i as int),
{
    let mut j = i;
    while j < b.len() && is_word_byte(b[j])
        invariant
            i <= j <= b@.len(),
            word_end(b@, i as int) == word_end(b@, j as int),
        decreases b@.len() - j,
    {
        j = j + 1;
    }
    j
}

/// Whether a `*/` starts at or after `j`.
fn has_close_exec(b: &[u8], j: usize) -> (r: bool)
    ensures
        r == has_close(b@, j as int),
{
    if b.len() < 2 {
        return false;
    }
    let mut k = j;
    while k < b.len() - 1
        invariant
            j <= k,
            b@.len() >= 2,
            forall|m: int| j <= m < k && m + 1 < b@.len() ==> !(#[trigger] b@[m] == 42 && b@[m + 1] == 47),
        decreases b@.len() - k,
    {
        if b[k] == 42 && b[k + 1] == 47 {
            return true;
        }
        k = k + 1;
    }
    false
}

/// The end of the run of whitespace and comments at `i`, and whether it
/// holds a line feed.
fn run_end_exec(b: &[u8], i: usize) -> (r: (usize, bool))
    requires
        i <= b@.len(),
    ensures
        r.0 == run_end(b@, i as int, 0),
        r.1 == has_newline(b@, i as int, r.0 as int),
{
    let mut j = i;
    let mut mode: u8 = 0;
    let mut nl = false;
    while j < b.len()
        invariant
            i <= j <= b@.len(),
            mode <= 2,
            run_end(b@, i as int, 0) == run_end(b@, j as int, mode as int),
            nl == has_newline(b@, i as int, j as int),
        ensures
            run_end(b@, i as int, 0) == j,
            nl == has_newline(b@, i as int, j as int),
        decreases b@.len() - j,
    {
        let c = b[j];
        if mode == 1 {
            if c == 10 {
                nl = true;
                mode = 0;
            }
            j = j + 1;
        } else if mode == 2 {
            if c == 42 && j + 1 < b.len() && b[j + 1] == 47 {
                mode = 0;
                j = j + 2;
            } else {
                if c == 10 {
                    nl = true;
                }
                j = j + 1;
            }
        } else if c == 32 || c == 9 || c == 10 {
            if c == 10 {
                nl = true;
            }
            j = j + 1;
        } else if c == 47 && j + 1 < b.len() && b[j + 1] == 47 {
            mode = 1;
            j = j + 2;
        } else if c == 47 && j + 1 < b.len() && b[j + 1] == 42 && has_close_exec(b, j + 2) {
            mode = 2;
            j = j + 2;
        } else {
            break;
        }
    }
    (j, nl)
}

/// The end of the UTF-8 continuation bytes from `j`.
fn cont_end_exec(b: &[u8], j: usize) -> (k: usize)
    requires
        j <= b@.len(),
    ensures
        k == cont_end(b@, j as int),
{
    let mut k = j;
    while k < b.len() && 128 <= b[k] && b[k] < 192
        invariant
            j <= k <= b@.len(),
            cont_end(b@, j as int) == cont_end(b@, k as int),
        decreases b@.len() - k,
    {
        k = k + 1;
    }
    k
}

/// The one-character token that `c` is, if any.
fn punct_exec(c: u8) -> (r: Option<AsmToken>)
    ensures
        match punct(c) {
            Some(t) => r matches Some(x) && x@ == t,
            None => r is None,
        },
{
    if c == 43 { Some(AsmToken::Add) }
    else if c == 45 { Some(AsmToken::Subtract) }
    else if c == 42 { Some(AsmToken::Multiply) }
    else if c == 47 { Some(AsmToken::Divide) }
    else if c == 37 { Some(AsmToken::Modulo) }
    else if c == 44 { Some(AsmToken::Comma) }
    else if c == 91 { Some(AsmToken::LeftBracket) }
    else if c == 93 { Some(AsmToken::RightBracket) }
    else if c == 40 { Some(AsmToken::LeftParen) }
    else if c == 41 { Some(AsmToken::RightParen) }
    else if c == 58 { Some(AsmToken::Colon) }
    else { None }
}

/// A token, if any, as a mathematical value.
pub open spec fn opt_token_view(x: Option<AsmToken>) -> Option<TokenView> {
    match x {
        Some(t) => Some(t@),
        None => None,
    }
}

/// Tokens with spans as mathematical values.
pub open spec fn tokens_view(s: Seq<(AsmToken, Span)>) -> Seq<(TokenView, Span)> {
    s.map_values(|p: (AsmToken, Span)| (p.0@, p.1))
}

/// Prepends tokens to a token sequence that exists.
pub open spec fn opt_prepend(xs: Seq<(TokenView, Span)>, o: Option<Seq<(TokenView, Span)>>) -> Option<Seq<(TokenView, Span)>> {
    match o {
        Some(v) => Some(xs + v),
        None => None,
    }
}

/// One step of the lexer at `i`.
fn lex_step_exec(b: &[u8], i: usize) -> (r: Result<(Option<AsmToken>, usize), ()>)
    requires
        i < b@.len(),
    ensures
        match lex_step(b@, i as int) {
            Ok((t, e)) => r matches Ok((x, e2)) && e2 == e && opt_token_view(x) == t,
            Err(()) => r is Err,
        },
{
    let (e, nl) = run_end_exec(b, i);
    if e > i {
        return Ok((if nl { Some(AsmToken::Newline) } else { None }, e));
    }
    let c = b[i];
    if is_word_byte(c) {
        let j = word_end_exec(b, i);
        proof {
            lemma_word_end(b@, i as int);
        }
        return match classify_exec(b, i, j) {
            Some(t) => Ok((Some(t), j)),
            None => Err(()),
        };
    }
    if c == 45 && i + 1 < b.len() && b[i + 1] == 62 {
        return Ok((Some(AsmToken::Into), i + 2));
    }
    match punct_exec(c) {
        Some(t) => Ok((Some(t), i + 1)),
        None => Ok((Some(AsmToken::Unrecognized), cont_end_exec(b, i + 1))),
    }
}

/// The tokens of the bytes of a text, each with its span of byte offsets,
/// or `None` where a decimal literal is above 255.
fn lex_bytes(b: &[u8]) -> (r: Option<Vec<(AsmToken, Span)>>)
    ensures
        match spec_lex(b@, 0) {
            Some(ts) => r matches Some(v) && tokens_view(v@) == ts,
            None => r is None,
        },
{
    let mut out: Vec<(AsmToken, Span)> = Vec::new();
    let mut i: usize = 0;
    proof {
        if let Some(ts) = spec_lex(b@, 0) {
            assert(tokens_view(out@) + ts =~= ts);
        }
    }
    while i < b.len()
        invariant
            i <= b@.len(),
            spec_lex(b@, 0) == opt_prepend(tokens_view(out@), spec_lex(b@, i as int)),
        decreases b@.len() - i,
    {
        proof {
            lemma_lex_step(b@, i as int);
        }
        let (t, e) = match lex_step_exec(b, i) {
            Ok(x) => x,
            Err(()) => {
                proof {
                    assert(spec_lex(b@, i as int) is None);
                }
                return None;
            },
        };
        let ghost before = out@;
        match t {
            Some(tok) => {
                let ghost tv = tok@;
                out.push((tok, Span::new(i, e)));
                proof {
                    assert(tokens_view(out@) =~= tokens_view(before) + seq![(tv, Span { start: i, end: e })]);
                    if let Some(rest) = spec_lex(b@, e as int) {
                        assert(tokens_view(before) + (seq![(tv, Span { start: i, end: e })] + rest)
                            =~= tokens_view(out@) + rest);
                    }
                }
            },
            None => {},
        }
        i = e;
    }
    proof {
        assert(tokens_view(out@) + Seq::<(TokenView, Span)>::empty() =~= tokens_view(out@));
    }
    Some(out)
}

/// Whether the text can be lexed: it has no decimal literal above 255.
pub fn lexes(input: &str) -> (r: bool)
    ensures
        r == spec_lex(encode_utf8(input@), 0) is Some,
{
    lex_bytes(input.as_bytes()).is_some()
}

/// The tokens of a text, each with its span of byte offsets. Text that
/// starts no token gives `Unrecognized`.
pub fn spanned_tokens(input: &str) -> (r: Vec<(AsmToken, Span)>)
    requires
        spec_lex(encode_utf8(input@), 0) is Some,
    ensures
        tokens_view(r@) == spec_lex(encode_utf8(input@), 0).unwrap(),
{
    match lex_bytes(input.as_bytes()) {
        Some(v) => v,
        None => Vec::new(),
    }
}

impl AsmToken {
    /// A copy of the token.
    pub fn duplicate(&self) -> (r: AsmToken)
        ensures
            r@ == self@,
    {
        match self {
            AsmToken::Register(r) => AsmToken::Register(*r),
            AsmToken::LiteralHex(v) => AsmToken::LiteralHex(*v),
            AsmToken::LiteralDec(v) => AsmToken::LiteralDec(*v),
            AsmToken::LiteralBin(v) => AsmToken::LiteralBin(*v),
            AsmToken::Identifier(s) => AsmToken::Identifier(s.clone()),
            AsmToken::Ambiguous(s) => AsmToken::Ambiguous(s.clone()),
            AsmToken::Add => AsmToken::Add,
            AsmToken::Subtract => AsmToken::Subtract,
            AsmToken::Multiply => AsmToken::Multiply,
            AsmToken::Divide => AsmToken::Divide,
            AsmToken::Modulo => AsmToken::Modulo,
            AsmToken::Into => AsmToken::Into,
            AsmToken::Comma => AsmToken::Comma,
            AsmToken::LeftBracket => AsmToken::LeftBracket,
            AsmToken::RightBracket => AsmToken::RightBracket,
            AsmToken::LeftParen => AsmToken::LeftParen,
            AsmToken::RightParen => AsmToken::RightParen,
            AsmToken::Colon => AsmToken::Colon,
            AsmToken::Newline => AsmToken::Newline,
            AsmToken::Unrecognized => AsmToken::Unrecognized,
        }
    }

    /// The tokens of a text, with `Err(())` for text that starts no token.
    pub fn lexer(input: &str) -> (r: Vec<Result<AsmToken, ()>>)
        requires
            spec_lex(encode_utf8(input@), 0) is Some,
        ensures
            r@.len() == spec_lex(encode_utf8(input@), 0).unwrap().len(),
            forall|k: int| #![trigger r@[k]] 0 <= k < r@.len() ==> match spec_lex(encode_utf8(input@), 0).unwrap()[k].0 {
                TokenView::Unrecognized => r@[k] is Err,
                t => r@[k] matches Ok(x) && x@ == t,
            },
    {
        let toks = spanned_tokens(input);
        let mut out: Vec<Result<AsmToken, ()>> = Vec::new();
        let mut k: usize = 0;
        while k < toks.len()
            invariant
                k <= toks@.len(),
                out@.len() == k,
                forall|m: int| #![trigger out@[m]] 0 <= m < k ==> match toks@[m].0@ {
                    TokenView::Unrecognized => out@[m] is Err,
                    t => out@[m] matches Ok(x) && x@ == t,
                },
            decreases toks@.len() - k,
        {
            let t = toks[k].0.duplicate();
            match t {
                AsmToken::Unrecognized => out.push(Err(())),
                _ => out.push(Ok(t)),
            }
            k = k + 1;
        }
        proof {
            assert forall|m: int| 0 <= m < out@.len() implies toks@[m].0@ == tokens_view(toks@)[m].0 by {}
        }
        out
    }
}

/// The tokens lie in order in the text: each span is nonempty and within
/// the text, and starts where or after the previous one ends.
pub proof fn lemma_lex_spans(b: Seq<u8>, i: int)
    requires
        0 <= i <= b.len(),
        b.len() <= usize::MAX,
        spec_lex(b, i) is Some,
    ensures
        forall|k: int| 0 <= k < spec_lex(b, i).unwrap().len()
            ==> i <= (#[trigger] spec_lex(b, i).unwrap()[k]).1.start < spec_lex(b, i).unwrap()[k].1.end <= b.len(),
        forall|k: int| 0 <= k < spec_lex(b, i).unwrap().len() - 1
            ==> (#[trigger] spec_lex(b, i).unwrap()[k]).1.end <= spec_lex(b, i).unwrap()[k + 1].1.start,
    decreases b.len() - i,
{
    if i < b.len() {
        lemma_lex_step(b, i);
        if let Ok((t, e)) = lex_step(b, i) {
            lemma_lex_spans(b, e);
            let rest = spec_lex(b, e).unwrap();
            let ts = spec_lex(b, i).unwrap();
            if let Some(tok) = t {
                assert(ts == seq![(tok, Span { start: i as usize, end: e as usize })] + rest);
                assert forall|k: int| 0 <= k < ts.len() - 1 implies (#[trigger] ts[k]).1.end <= ts[k + 1].1.start by {
                    if k > 0 {
                        assert(ts[k] == rest[k - 1]);
                        assert(ts[k + 1] == rest[k]);
                    } else {
                        assert(ts[1] == rest[0]);
                    }
                }
                assert forall|k: int| 0 <= k < ts.len() implies i <= (#[trigger] ts[k]).1.start < ts[k].1.end <= b.len() by {
                    if k > 0 {
                        assert(ts[k] == rest[k - 1]);
                    }
                }
            }
        }
    }
}

/// In valid UTF-8 an ASCII byte is a character of its own: characters begin
/// at it and right after it.
proof fn lemma_after_ascii(b: Seq<u8>, i: int)
    requires
        valid_utf8(b),
        0 <= i < b.len(),
        b[i] < 128,
    ensures
        is_char_boundary(b, i),
        is_char_boundary(b, i + 1),
    decreases b.len(),
{
    is_char_boundary_iff_not_is_continuation_byte(b, i);
    let l = length_of_first_scalar(b);
    let t = pop_first_scalar(b);
    if i == 0 {
        assert(l == 1);
        is_char_boundary_start_end_of_seq(t);
    } else {
        assert(is_char_boundary(t, i - l));
        assert(t[i - l] == b[i]);
        lemma_after_ascii(t, i - l);
    }
}

proof fn lemma_run_end_boundary(b: Seq<u8>, i: int, mode: int)
    requires
        valid_utf8(b),
        0 <= i <= b.len(),
        0 <= mode <= 2,
        mode == 0 ==> is_char_boundary(b, i),
    ensures
        is_char_boundary(b, run_end(b, i, mode)),
    decreases b.len() - i,
{
    if i >= b.len() {
        is_char_boundary_start_end_of_seq(b);
    } else if mode == 1 {
        if b[i] == 10 {
            lemma_after_ascii(b, i);
        }
        lemma_run_end_boundary(b, i + 1, if b[i] == 10 { 0 } else { 1 });
    } else if mode == 2 {
        if b[i] == 42 && i + 1 < b.len() && b[i + 1] == 47 {
            lemma_after_ascii(b, i + 1);
            lemma_run_end_boundary(b, i + 2, 0);
        } else {
            lemma_run_end_boundary(b, i + 1, 2);
        }
    } else if is_ws(b[i]) {
        lemma_after_ascii(b, i);
        lemma_run_end_boundary(b, i + 1, 0);
    } else if b[i] == 47 && i + 1 < b.len() && b[i + 1] == 47 {
        lemma_run_end_boundary(b, i + 2, 1);
    } else if b[i] == 47 && i + 1 < b.len() && b[i + 1] == 42 && has_close(b, i + 2) {
        lemma_run_end_boundary(b, i + 2, 2);
    }
}

proof fn lemma_word_end_boundary(b: Seq<u8>, i: int)
    requires
        valid_utf8(b),
        0 <= i < b.len(),
        is_word(b[i]),
    ensures
        is_char_boundary(b, word_end(b, i)),
    decreases b.len() - i,
{
    assert(word_end(b, i) == word_end(b, i + 1));
    if i + 1 < b.len() && is_word(b[i + 1]) {
        lemma_word_end_boundary(b, i + 1);
    } else {
        assert(word_end(b, i + 1) == i + 1);
        lemma_after_ascii(b, i);
    }
}

proof fn lemma_lex_step_boundary(b: Seq<u8>, i: int)
    requires
        valid_utf8(b),
        0 <= i < b.len(),
        is_char_boundary(b, i),
    ensures
        lex_step(b, i) matches Ok((_, e)) ==> is_char_boundary(b, e),
{
    let e = run_end(b, i, 0);
    if e > i {
        lemma_run_end_boundary(b, i, 0);
    } else if is_word(b[i]) {
        lemma_word_end_boundary(b, i);
    } else if b[i] == 45 && i + 1 < b.len() && b[i + 1] == 62 {
        lemma_after_ascii(b, i + 1);
    } else if punct(b[i]) is Some {
        lemma_after_ascii(b, i);
    } else {
        let j = cont_end(b, i + 1);
        lemma_cont_end(b, i + 1);
        if j < b.len() {
            is_char_boundary_iff_not_is_continuation_byte(b, j);
        } else {
            is_char_boundary_start_end_of_seq(b);
        }
    }
}

proof fn lemma_lex_boundaries_from(b: Seq<u8>, i: int)
    requires
        valid_utf8(b),
        0 <= i <= b.len(),
        b.len() <= usize::MAX,
        is_char_boundary(b, i),
        spec_lex(b, i) is Some,
    ensures
        forall|k: int| 0 <= k < spec_lex(b, i).unwrap().len() ==> is_char_boundary(
            b,
            (#[trigger] spec_lex(b, i).unwrap()[k]).1.start as int,
        ) && is_char_boundary(b, spec_lex(b, i).unwrap()[k].1.end as int),
    decreases b.len() - i,
{
    if i < b.len() {
        lemma_lex_step(b, i);
        lemma_lex_step_boundary(b, i);
        if let Ok((t, e)) = lex_step(b, i) {
            lemma_lex_boundaries_from(b, e);
            let rest = spec_lex(b, e).unwrap();
            let ts = spec_lex(b, i).unwrap();
            if let Some(tok) = t {
                assert(ts == seq![(tok, Span { start: i as usize, end: e as usize })] + rest);
                assert forall|k: int| 0 <= k < ts.len() implies is_char_boundary(b, (#[trigger] ts[k]).1.start as int)
                    && is_char_boundary(b, ts[k].1.end as int) by {
                    if k > 0 {
                        assert(ts[k] == rest[k - 1]);
                    }
                }
            }
        }
    }
}

/// In any text, every token the lexer finds starts and ends between
/// characters, so the text can be sliced at its span.
pub proof fn lemma_lex_char_boundaries(text: Seq<char>)
    requires
        encode_utf8(text).len() <= usize::MAX,
        spec_lex(encode_utf8(text), 0) is Some,
    ensures
        forall|k: int| 0 <= k < spec_lex(encode_utf8(text), 0).unwrap().len() ==> is_char_boundary(
            encode_utf8(text),
            (#[trigger] spec_lex(encode_utf8(text), 0).unwrap()[k]).1.start as int,
        ) && is_char_boundary(encode_utf8(text), spec_lex(encode_utf8(text), 0).unwrap()[k].1.end as int),
{
    let b = encode_utf8(text);
    encode_utf8_valid_utf8(text);
    is_char_boundary_start_end_of_seq(b);
    lemma_lex_boundaries_from(b, 0);
}

} // verus!
