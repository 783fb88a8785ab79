use vstd::prelude::*;

use ariadne::{sources, Color, Config, IndexType, Label, Report, ReportKind};

use crate::ast::Span;
use crate::common::{reg_index, Register};
use crate::lexer::{AsmToken, TokenView};
use crate::parser::{Expected, ParseError, ParseErrorV};
use crate::convert::{to_uppercase, upper_text};
use crate::serialize::{span_ok, ErrorView, MessageView, SerializationError, SerializationErrorMessage};
use crate::text::{dec_str, hex2, hex_digit, push_char, push_dec, push_hex2, push_hex_digit, push_str};
use vstd::utf8::encode_utf8;

verus! {

/// The eight binary digits of a byte.
pub open spec fn bin8(v: u8) -> Seq<char> {
    Seq::new(8, |i: int| if (v as int / pow2i(7 - i)) % 2 == 1 { '1' } else { '0' })
}

pub open spec fn pow2i(e: int) -> int
    decreases e,
{
    if e <= 0 {
        1
    } else {
        2 * pow2i(e - 1)
    }
}

/// How a token is written in messages.
pub open spec fn token_text(t: TokenView) -> Seq<char> {
    match t {
        TokenView::Register(r) => seq!['R', hex_digit(reg_index(r) as int)],
        TokenView::LiteralHex(v) => hex2(v) + seq!['_', 'h'],
        TokenView::LiteralDec(v) => dec_str(v as nat) + seq!['_', 'd'],
        TokenView::LiteralBin(v) => bin8(v) + seq!['_', 'b'],
        TokenView::Identifier(s) => s,
        TokenView::Ambiguous(s) => s,
        TokenView::Add => seq!['+'],
        TokenView::Subtract => seq!['-'],
        TokenView::Multiply => seq!['*'],
        TokenView::Divide => seq!['/'],
        TokenView::Modulo => seq!['%'],
        TokenView::Into => seq!['-', '>'],
        TokenView::Comma => seq![','],
        TokenView::LeftBracket => seq!['['],
        TokenView::RightBracket => seq![']'],
        TokenView::LeftParen => seq!['('],
        TokenView::RightParen => seq![')'],
        TokenView::Colon => seq![':'],
        TokenView::Newline => seq!['\\', 'n'],
        TokenView::Unrecognized => "<unrecognized>"@,
    }
}

/// A token in quotes.
pub open spec fn quoted(s: Seq<char>) -> Seq<char> {
    seq!['\''] + s + seq!['\'']
}

/// How an expected item is written in messages: a named part of the grammar
/// by its name, a token in quotes.
pub open spec fn expected_text(e: Expected) -> Seq<char> {
    match e {
        Expected::NumericLiteral => "numeric literal"@,
        Expected::Identifier => "identifier"@,
        Expected::Register => "register"@,
        Expected::Label => "label"@,
        Expected::Offset => "offset"@,
        Expected::Annotation => "annotation"@,
        Expected::Constant => "constant"@,
        Expected::InstructionMnemonic => "instruction mnemonic"@,
        Expected::Newline => "newline"@,
        Expected::EndOfInput => "end of input"@,
        Expected::Colon => quoted(seq![':']),
        Expected::Comma => quoted(seq![',']),
        Expected::Into => quoted(seq!['-', '>']),
        Expected::LeftParen => quoted(seq!['(']),
        Expected::RightParen => quoted(seq![')']),
        Expected::LeftBracket => quoted(seq!['[']),
        Expected::RightBracket => quoted(seq![']']),
        Expected::Add => quoted(seq!['+']),
        Expected::Subtract => quoted(seq!['-']),
        Expected::Multiply => quoted(seq!['*']),
        Expected::Divide => quoted(seq!['/']),
        Expected::Modulo => quoted(seq!['%']),
    }
}

/// The expected items as a list: `a, b, or c`; `something else` when none.
pub open spec fn expected_list(es: Seq<Expected>) -> Seq<char> {
    if es.len() == 0 {
        "something else"@
    } else if es.len() == 1 {
        expected_text(es[0])
    } else {
        expected_prefix(es, es.len() - 1) + "or "@ + expected_text(es.last())
    }
}

/// The first `n` expected items, each followed by a comma and a space.
pub open spec fn expected_prefix(es: Seq<Expected>, n: int) -> Seq<char>
    decreases n,
{
    if n <= 0 {
        Seq::empty()
    } else {
        expected_prefix(es, n - 1) + expected_text(es[n - 1]) + ", "@
    }
}

/// What was found: a token in quotes, or the end of input.
pub open spec fn found_text(found: Option<TokenView>) -> Seq<char> {
    match found {
        Some(t) => quoted(token_text(t)),
        None => "end of input"@,
    }
}

/// The label of a parse error: what was found and what was expected.
pub open spec fn parse_error_label(found: Option<TokenView>, expected: Seq<Expected>) -> Seq<char> {
    "found "@ + found_text(found) + " expected "@ + expected_list(expected)
}

/// The headline of a parse error.
pub open spec fn parse_error_message(found: Option<TokenView>) -> Seq<char> {
    match found {
        Some(TokenView::Ambiguous(a)) => "Encountered ambiguous token: '\""@ + a + "\"'"@,
        Some(t) => "Encountered unexpected token '"@ + token_text(t) + "'"@,
        None => "Encountered unexpected end of input"@,
    }
}

/// `0x` or `0X`, then at least one hexadecimal digit, and nothing else.
pub open spec fn c_style_hex(s: Seq<char>) -> bool {
    &&& s.len() >= 3
    &&& s[0] == '0'
    &&& (s[1] == 'x' || s[1] == 'X')
    &&& forall|i: int| 2 <= i < s.len() ==> is_hex_char(#[trigger] s[i])
}

pub open spec fn is_hex_char(c: char) -> bool {
    ('0' <= c <= '9') || ('a' <= c <= 'f') || ('A' <= c <= 'F')
}

/// The help of a parse error: for an ambiguous token, how to write a
/// hexadecimal number or why the token is ambiguous.
pub open spec fn parse_error_help(found: Option<TokenView>) -> Option<Seq<char>> {
    match found {
        Some(TokenView::Ambiguous(a)) => Some(
            if c_style_hex(a) {
                "This token, \""@ + a
                    + "\", looks like a C-style hexadecimal number. Hexadecimal numbers are written with no prefix, or optionally with the suffix _h, e.g. "@
                    + a.subrange(2, a.len() as int) + "_h"@
            } else {
                "This token, \""@ + a
                    + "\", is ambiguous due to the fact that it contains characters that could be used\nin either a number or an identifier (such as a label), but it could not be determined which was\nintended. Usually this happens as a result of writing an identifier that starts with a digit\nsuch as \"0hello\" which is unfortunately not supported."@
            },
        ),
        _ => None,
    }
}

fn push_bin8(s: &mut String, v: u8)
    ensures
        final(s)@ == old(s)@ + bin8(v),
{
    let ghost start = s@;
    let mut k: u8 = 0;
    let mut p: u8 = 128;
    proof {
        reveal_with_fuel(pow2i, 8);
    }
    while k < 8
        invariant
            k <= 8,
            p as int == pow2i(7 - k as int) || (k == 8 && p == 0),
            s@ == start + bin8(v).take(k as int),
        decreases 8 - k,
    {
        proof {
            reveal_with_fuel(pow2i, 8);
        }
        let bit = (v / p) % 2;
        push_char(s, if bit == 1 { '1' } else { '0' });
        assert(bin8(v).take(k + 1) =~= bin8(v).take(k as int).push(bin8(v)[k as int]));
        k = k + 1;
        p = p / 2;
    }
    assert(bin8(v).take(8) =~= bin8(v));
}

/// Appends how a token is written in messages.
fn push_token_text(s: &mut String, t: &AsmToken)
    ensures
        final(s)@ == old(s)@ + token_text(t@),
{
    match t {
        AsmToken::Register(r) => {
            push_char(s, 'R');
            push_hex_digit(s, r.as_index());
        },
        AsmToken::LiteralHex(v) => {
            push_hex2(s, *v);
            push_char(s, '_');
            push_char(s, 'h');
        },
        AsmToken::LiteralDec(v) => {
            push_dec(s, *v as u64);
            push_char(s, '_');
            push_char(s, 'd');
        },
        AsmToken::LiteralBin(v) => {
            push_bin8(s, *v);
            push_char(s, '_');
            push_char(s, 'b');
        },
        AsmToken::Identifier(x) => push_str(s, x.as_str()),
        AsmToken::Ambiguous(x) => push_str(s, x.as_str()),
        AsmToken::Add => push_char(s, '+'),
        AsmToken::Subtract => push_char(s, '-'),
        AsmToken::Multiply => push_char(s, '*'),
        AsmToken::Divide => push_char(s, '/'),
        AsmToken::Modulo => push_char(s, '%'),
        AsmToken::Into => {
            push_char(s, '-');
            push_char(s, '>');
        },
        AsmToken::Comma => push_char(s, ','),
        AsmToken::LeftBracket => push_char(s, '['),
        AsmToken::RightBracket => push_char(s, ']'),
        AsmToken::LeftParen => push_char(s, '('),
        AsmToken::RightParen => push_char(s, ')'),
        AsmToken::Colon => push_char(s, ':'),
        AsmToken::Newline => {
            push_char(s, '\\');
            push_char(s, 'n');
        },
        AsmToken::Unrecognized => push_str(s, "<unrecognized>"),
    }
    assert(final(s)@ =~= old(s)@ + token_text(t@));
}

impl AsmToken {
    /// How the token is written in messages.
    pub fn to_text(&self) -> (s: String)
        ensures
            s@ == token_text(self@),
    {
        let mut s = String::new();
        push_token_text(&mut s, self);
        assert(s@ =~= token_text(self@));
        s
    }
}

fn push_quoted_char(s: &mut String, c: char)
    ensures
        final(s)@ == old(s)@ + quoted(seq![c]),
{
    push_char(s, '\'');
    push_char(s, c);
    push_char(s, '\'');
    assert(final(s)@ =~= old(s)@ + quoted(seq![c]));
}

/// Appends how an expected item is written in messages.
fn push_expected_text(s: &mut String, e: Expected)
    ensures
        final(s)@ == old(s)@ + expected_text(e),
{
    match e {
        Expected::NumericLiteral => push_str(s, "numeric literal"),
        Expected::Identifier => push_str(s, "identifier"),
        Expected::Register => push_str(s, "register"),
        Expected::Label => push_str(s, "label"),
        Expected::Offset => push_str(s, "offset"),
        Expected::Annotation => push_str(s, "annotation"),
        Expected::Constant => push_str(s, "constant"),
        Expected::InstructionMnemonic => push_str(s, "instruction mnemonic"),
        Expected::Newline => push_str(s, "newline"),
        Expected::EndOfInput => push_str(s, "end of input"),
        Expected::Colon => push_quoted_char(s, ':'),
        Expected::Comma => push_quoted_char(s, ','),
        Expected::Into => {
            push_char(s, '\'');
            push_char(s, '-');
            push_char(s, '>');
            push_char(s, '\'');
            assert(s@ =~= old(s)@ + quoted(seq!['-', '>']));
        },
        Expected::LeftParen => push_quoted_char(s, '('),
        Expected::RightParen => push_quoted_char(s, ')'),
        Expected::LeftBracket => push_quoted_char(s, '['),
        Expected::RightBracket => push_quoted_char(s, ']'),
        Expected::Add => push_quoted_char(s, '+'),
        Expected::Subtract => push_quoted_char(s, '-'),
        Expected::Multiply => push_quoted_char(s, '*'),
        Expected::Divide => push_quoted_char(s, '/'),
        Expected::Modulo => push_quoted_char(s, '%'),
    }
}

impl Expected {
    /// How the expected item is written in messages.
    pub fn to_text(&self) -> (s: String)
        ensures
            s@ == expected_text(*self),
    {
        let mut s = String::new();
        push_expected_text(&mut s, *self);
        assert(s@ =~= expected_text(*self));
        s
    }
}

/// Appends the expected items as a list.
fn push_expected_list(s: &mut String, es: &Vec<Expected>)
    ensures
        final(s)@ == old(s)@ + expected_list(es@),
{
    let n = es.len();
    if n == 0 {
        push_str(s, "something else");
    } else if n == 1 {
        push_expected_text(s, es[0]);
    } else {
        let ghost start = s@;
        let mut k: usize = 0;
        while k < n - 1
            invariant
                n == es@.len(),
                n >= 2,
                k <= n - 1,
                s@ == start + expected_prefix(es@, k as int),
            decreases n - 1 - k,
        {
            push_expected_text(s, es[k]);
            push_str(s, ", ");
            assert(s@ =~= start + expected_prefix(es@, (k + 1) as int));
            k = k + 1;
        }
        push_str(s, "or ");
        push_expected_text(s, es[n - 1]);
        assert(s@ =~= start + expected_list(es@));
    }
}

/// The headline of a parse error.
pub fn parse_error_message_text(e: &ParseError) -> (s: String)
    ensures
        s@ == parse_error_message(e.view().found),
{
    let mut s = String::new();
    match &e.found {
        Some(AsmToken::Ambiguous(a)) => {
            push_str(&mut s, "Encountered ambiguous token: '\"");
            push_str(&mut s, a.as_str());
            push_str(&mut s, "\"'");
        },
        Some(t) => {
            push_str(&mut s, "Encountered unexpected token '");
            push_token_text(&mut s, t);
            push_str(&mut s, "'");
        },
        None => push_str(&mut s, "Encountered unexpected end of input"),
    }
    assert(s@ =~= parse_error_message(e.view().found));
    s
}

/// The label of a parse error: what was found and what was expected.
pub fn parse_error_label_text(e: &ParseError) -> (s: String)
    ensures
        s@ == parse_error_label(e.view().found, e.view().expected),
{
    let mut s = String::new();
    push_str(&mut s, "found ");
    match &e.found {
        Some(t) => {
            push_char(&mut s, '\'');
            push_token_text(&mut s, t);
            push_char(&mut s, '\'');
        },
        None => push_str(&mut s, "end of input"),
    }
    push_str(&mut s, " expected ");
    push_expected_list(&mut s, &e.expected);
    assert(s@ =~= parse_error_label(e.view().found, e.view().expected));
    s
}

/// Whether the text is a C-style hexadecimal number: `regex::Regex::is_match`
/// with the pattern `^0[xX][0-9a-fA-F]+$`, which is anchored at both ends of
/// the text (there is no multi-line flag) and whose classes are ASCII.
#[verifier::external_body]
fn looks_like_c_hex(s: &str) -> (r: bool)
    ensures
        r == c_style_hex(s@),
{
    match regex::Regex::new(r"^0[xX][0-9a-fA-F]+$") {
        Ok(re) => re.is_match(s),
        Err(_) => false,
    }
}

/// The help of a parse error, if it has one.
pub fn parse_error_help_text(e: &ParseError) -> (r: Option<String>)
    ensures
        match parse_error_help(e.view().found) {
            Some(h) => r matches Some(s) && s@ == h,
            None => r is None,
        },
{
    match &e.found {
        Some(AsmToken::Ambiguous(a)) => {
            let mut s = String::new();
            push_str(&mut s, "This token, \"");
            push_str(&mut s, a.as_str());
            if looks_like_c_hex(a.as_str()) {
                push_str(&mut s, "\", looks like a C-style hexadecimal number. Hexadecimal numbers are written with no prefix, or optionally with the suffix _h, e.g. ");
                let len = a.as_str().unicode_len();
                push_str(&mut s, a.as_str().substring_char(2, len));
                push_str(&mut s, "_h");
            } else {
                push_str(&mut s, "\", is ambiguous due to the fact that it contains characters that could be used\nin either a number or an identifier (such as a label), but it could not be determined which was\nintended. Usually this happens as a result of writing an identifier that starts with a digit\nsuch as \"0hello\" which is unfortunately not supported.");
            }
            assert(s@ =~= parse_error_help(e.view().found).unwrap());
            Some(s)
        },
        _ => None,
    }
}

/// Renders one error report as text with ariadne: `Report::build` of kind
/// `Error` over `span` of the source named `file_name`, counting byte
/// offsets, with the message, one red label with the label text over the same
/// span, where `note` is given one more label, yellow, with its text over its
/// span, and the help if there is one, written by `Report::write` into
/// memory. ariadne slices the source at the ends of each label's span, so
/// they must lie between characters. The report opens with its headline:
/// `Report::write` first writes the kind (`Error:`), a space, the message as
/// it is, and a line break. The rest of the text is ariadne's layout of these
/// arguments; it depends on them and on one more thing: whether colour is on,
/// which yansi decides while running from what the operating system supports.
#[verifier::external_body]
fn render_report(
    file_name: String,
    source: &str,
    span: Span,
    message: &str,
    label: &str,
    help: Option<String>,
    note: Option<(Span, String)>,
) -> (r: String)
    requires
        span_ok(encode_utf8(source@), span),
        note matches Some(n) ==> span_ok(encode_utf8(source@), n.0),
    ensures
        has_headline(r@, message@),
        exists|colour: bool| r@ == #[trigger] ariadne_report(
            colour,
            file_name@,
            source@,
            span.start,
            span.end,
            message@,
            label@,
            opt_view(help),
            note_view(note),
        ),
{
    let id = file_name;
    let second = note.map(|(sp, text)| Label::new((id.clone(), sp.start..sp.end)).with_message(text).with_color(Color::Yellow));
    let mut builder = Report::build(ReportKind::Error, (id.clone(), span.start..span.end))
        .with_config(Config::new().with_index_type(IndexType::Byte))
        .with_message(message)
        .with_label(Label::new((id.clone(), span.start..span.end)).with_message(label).with_color(Color::Red))
        .with_labels(second);
    builder.with_helps(help);
    let mut out = Vec::new();
    let _ = builder.finish().write(sources([(id, source)]), &mut out);
    String::from_utf8(out).unwrap_or_default()
}

/// The text that ariadne's `Report::write` gives for an error report with
/// colour on or off, from the source named `file_name`, over bytes
/// `start..end`, with the message, one label, the help if any, and a second
/// label (its byte range and text) if any.
pub uninterp spec fn ariadne_report(
    colour: bool,
    file_name: Seq<char>,
    source: Seq<char>,
    start: usize,
    end: usize,
    message: Seq<char>,
    label: Seq<char>,
    help: Option<Seq<char>>,
    note: Option<(usize, usize, Seq<char>)>,
) -> Seq<char>;

/// The view of a second label: its byte range and its text.
pub open spec fn note_view(note: Option<(Span, String)>) -> Option<(usize, usize, Seq<char>)> {
    match note {
        Some(n) => Some((n.0.start, n.0.end, n.1@)),
        None => None,
    }
}

/// The view of an optional string.
pub open spec fn opt_view(o: Option<String>) -> Option<Seq<char>> {
    match o {
        Some(s) => Some(s@),
        None => None,
    }
}

/// The report for one parse error: ariadne's rendering, with colour on or
/// off, of the error's message, label and help over its span of the source.
pub open spec fn parse_error_report(file_name: Seq<char>, src: Seq<char>, e: ParseErrorV, report: Seq<char>) -> bool {
    &&& has_headline(report, parse_error_message(e.found))
    &&& exists|colour: bool| report == #[trigger] ariadne_report(
        colour,
        file_name,
        src,
        e.span.start,
        e.span.end,
        parse_error_message(e.found),
        parse_error_label(e.found, e.expected),
        parse_error_help(e.found),
        None,
    )
}

/// A report whose first line ends with a space, `message` and a line break.
pub open spec fn has_headline(report: Seq<char>, message: Seq<char>) -> bool {
    exists|head: Seq<char>, rest: Seq<char>|
        #![trigger head + " "@ + message + "\n"@ + rest]
        !head.contains('\n') && report == head + " "@ + message + "\n"@ + rest
}

/// Renders parse errors as text, one report after another: for each error,
/// ariadne's report of the message, label and help that
/// `parse_error_message_text`, `parse_error_label_text` and
/// `parse_error_help_text` give, over the error's span.
pub fn parse_errors_to_string(src: &str, file_name: String, errors: &[ParseError]) -> (r: String)
    requires
        forall|i: int| 0 <= i < errors@.len() ==> span_ok(encode_utf8(src@), #[trigger] errors@[i].span),
    ensures
        exists|reports: Seq<Seq<char>>|
            #![trigger reports.flatten_alt()]
            reports.len() == errors@.len() && r@ == reports.flatten_alt() && forall|i: int|
                0 <= i < errors@.len() ==> parse_error_report(file_name@, src@, errors@[i].view(), #[trigger] reports[i]),
{
    let mut out = String::new();
    let ghost mut reports: Seq<Seq<char>> = Seq::empty();
    let mut k: usize = 0;
    while k < errors.len()
        invariant
            k <= errors@.len(),
            forall|i: int| 0 <= i < errors@.len() ==> span_ok(encode_utf8(src@), #[trigger] errors@[i].span),
            reports.len() == k,
            out@ == reports.flatten_alt(),
            forall|i: int|
                0 <= i < k ==> parse_error_report(file_name@, src@, errors@[i].view(), #[trigger] reports[i]),
        decreases errors@.len() - k,
    {
        let e = &errors[k];
        let message = parse_error_message_text(e);
        let label = parse_error_label_text(e);
        let help = parse_error_help_text(e);
        let ghost hv = opt_view(help);
        let report = render_report(file_name.clone(), src, e.span, message.as_str(), label.as_str(), help, None);
        push_str(&mut out, report.as_str());
        proof {
            assert(hv == parse_error_help(e.view().found));
            let colour = choose|colour: bool| report@ == #[trigger] ariadne_report(
                colour,
                file_name@,
                src@,
                e.span.start,
                e.span.end,
                message@,
                label@,
                hv,
                None,
            );
            assert(report@ == ariadne_report(
                colour,
                file_name@,
                src@,
                e.view().span.start,
                e.view().span.end,
                parse_error_message(e.view().found),
                parse_error_label(e.view().found, e.view().expected),
                parse_error_help(e.view().found),
                None,
            ));
            assert(parse_error_report(file_name@, src@, e.view(), report@));
            let next = reports.push(report@);
            assert(next.drop_last() =~= reports);
            assert(next.flatten_alt() == reports.flatten_alt() + report@);
            reports = next;
        }
        k = k + 1;
    }
    out
}

/// The text of the second label in the report of a constant with no name
/// after an explicit address: the label stands over that address.
pub open spec fn offset_note_text() -> Seq<char> {
    "This is not a valid symbolic name, as it is purely numeric and therefore has been interpreted as an offset."@
}

/// The second label of an assembly error's report: for a constant with no
/// name after an explicit address, a note over that address; else none.
pub open spec fn semantic_note(m: MessageView) -> Option<(usize, usize, Seq<char>)> {
    match m {
        MessageView::UnlabeledConstant(Some(sp)) => Some((sp.start, sp.end, offset_note_text())),
        _ => None,
    }
}

/// The spans of an assembly error lie within the source and between its
/// characters: the error's own, and that of the explicit address it names.
pub open spec fn semantic_spans_ok(src: Seq<char>, e: ErrorView) -> bool {
    &&& span_ok(encode_utf8(src), e.span)
    &&& e.message matches MessageView::UnlabeledConstant(Some(sp)) ==> span_ok(encode_utf8(src), sp)
}

/// The report for one assembly error: ariadne's rendering, with colour on or
/// off, of the error's text as message and as red label over its span, the
/// note over an explicit address for a constant with no name, and the help.
pub open spec fn semantic_error_report(
    file_name: Seq<char>,
    src: Seq<char>,
    e: ErrorView,
    help: Option<Seq<char>>,
    report: Seq<char>,
) -> bool {
    &&& has_headline(report, message_text(e.message))
    &&& exists|colour: bool| report == #[trigger] ariadne_report(
        colour,
        file_name,
        src,
        e.span.start,
        e.span.end,
        message_text(e.message),
        message_text(e.message),
        help,
        semantic_note(e.message),
    )
}

/// Renders an assembly error as a report, with the help that the caller
/// gives for it.
pub fn semantic_error_to_string(src: &str, file_name: String, error: &SerializationError, help: Option<String>) -> (r: String)
    requires
        semantic_spans_ok(src@, error@),
    ensures
        semantic_error_report(file_name@, src@, error@, opt_view(help), r@),
{
    let text = error.message.to_text();
    let note = match &error.message {
        SerializationErrorMessage::UnlabeledConstant(Some(sp)) => {
            let mut t = String::new();
            push_str(&mut t, "This is not a valid symbolic name, as it is purely numeric and therefore has been interpreted as an offset.");
            Some((*sp, t))
        },
        _ => None,
    };
    let ghost hv = opt_view(help);
    let ghost name = file_name@;
    let r = render_report(file_name, src, error.span, text.as_str(), text.as_str(), help, note);
    proof {
        let colour = choose|colour: bool| r@ == #[trigger] ariadne_report(
            colour,
            name,
            src@,
            error.span.start,
            error.span.end,
            text@,
            text@,
            hv,
            note_view(note),
        );
        assert(note_view(note) == semantic_note(error@.message));
        assert(r@ == ariadne_report(
            colour,
            name,
            src@,
            error@.span.start,
            error@.span.end,
            message_text(error@.message),
            message_text(error@.message),
            hv,
            semantic_note(error@.message),
        ));
    }
    r
}

/// Renders assembly errors as text, one report after another, each with the
/// help given beside it.
pub fn semantic_errors_to_string(src: &str, file_name: String, errors: &[SerializationError], helps: &[Option<String>]) -> (r: String)
    requires
        errors@.len() == helps@.len(),
        forall|i: int| 0 <= i < errors@.len() ==> semantic_spans_ok(src@, #[trigger] errors@[i]@),
    ensures
        exists|reports: Seq<Seq<char>>|
            #![trigger reports.flatten_alt()]
            reports.len() == errors@.len() && r@ == reports.flatten_alt() && forall|i: int|
                0 <= i < errors@.len() ==> semantic_error_report(
                    file_name@,
                    src@,
                    errors@[i]@,
                    opt_view(helps@[i]),
                    #[trigger] reports[i],
                ),
{
    let mut out = String::new();
    let ghost mut reports: Seq<Seq<char>> = Seq::empty();
    let mut k: usize = 0;
    while k < errors.len()
        invariant
            k <= errors@.len(),
            errors@.len() == helps@.len(),
            forall|i: int| 0 <= i < errors@.len() ==> semantic_spans_ok(src@, #[trigger] errors@[i]@),
            reports.len() == k,
            out@ == reports.flatten_alt(),
            forall|i: int|
                0 <= i < k ==> semantic_error_report(file_name@, src@, errors@[i]@, opt_view(helps@[i]), #[trigger] reports[i]),
        decreases errors@.len() - k,
    {
        let help = match &helps[k] {
            Some(h) => Some(h.clone()),
            None => None,
        };
        proof {
            assert(opt_view(help) == opt_view(helps@[k as int]));
        }
        let report = semantic_error_to_string(src, file_name.clone(), &errors[k], help);
        push_str(&mut out, report.as_str());
        proof {
            let next = reports.push(report@);
            assert(next.drop_last() =~= reports);
            assert(next.flatten_alt() == reports.flatten_alt() + report@);
            reports = next;
        }
        k = k + 1;
    }
    out
}

/// Names joined with ` -> `.
pub open spec fn join_arrow(v: Seq<Seq<char>>) -> Seq<char>
    decreases v.len(),
{
    if v.len() == 0 {
        Seq::empty()
    } else if v.len() == 1 {
        v[0]
    } else {
        join_arrow(v.drop_last()) + " -> "@ + v.last()
    }
}

/// The text of an assembly error.
pub open spec fn message_text(m: MessageView) -> Seq<char> {
    match m {
        MessageView::UnexpectedOperandCount { expected, found } =>
            "Instruction requires exactly "@ + dec_str(expected) + " operands, but found "@ + dec_str(found),
        MessageView::UnexpectedDestinationOperand =>
            "Instruction does not take a destination operand, but one was provided"@,
        MessageView::MissingDestinationOperand => "Instruction requires a destination operand, but none was provided"@,
        MessageView::InvalidOperandCombination(s) => "Invalid operand combination: "@ + s,
        MessageView::InvalidOperand(s) => "Invalid operand: "@ + s,
        MessageView::UndefinedConstant(s, _) => "Undefined constant: "@ + s,
        MessageView::CyclicDependency(v) => "Cyclic dependency detected in constant evaluation: "@ + join_arrow(v),
        MessageView::UnknownMnemonic(s) => "Unknown instruction mnemonic: "@ + upper_text(s),
        MessageView::MemoryLimitExceeded(a) => "Exceeded memory limit of 256 bytes. This instruction would be placed at address "@
            + dec_str(a as nat) + ", which is out of bounds."@,
        MessageView::UnlabeledConstant(_) => "This constant pseudo-instruction does not have a label."@,
        MessageView::UnknownError(s) => s,
    }
}

/// The text of an assembly error with its span, as `start..end`.
pub open spec fn error_text(e: ErrorView) -> Seq<char> {
    message_text(e.message) + " at span "@ + dec_str(e.span.start as nat) + ".."@ + dec_str(e.span.end as nat)
}

impl SerializationErrorMessage {
    /// The text of the error.
    pub fn to_text(&self) -> (s: String)
        ensures
            s@ == message_text(self@),
    {
        let mut s = String::new();
        match self {
            SerializationErrorMessage::UnexpectedOperandCount { expected, found } => {
                push_str(&mut s, "Instruction requires exactly ");
                push_dec(&mut s, *expected as u64);
                push_str(&mut s, " operands, but found ");
                push_dec(&mut s, *found as u64);
            },
            SerializationErrorMessage::UnexpectedDestinationOperand => {
                push_str(&mut s, "Instruction does not take a destination operand, but one was provided");
            },
            SerializationErrorMessage::MissingDestinationOperand => {
                push_str(&mut s, "Instruction requires a destination operand, but none was provided");
            },
            SerializationErrorMessage::InvalidOperandCombination(x) => {
                push_str(&mut s, "Invalid operand combination: ");
                push_str(&mut s, x.as_str());
            },
            SerializationErrorMessage::InvalidOperand(x) => {
                push_str(&mut s, "Invalid operand: ");
                push_str(&mut s, x.as_str());
            },
            SerializationErrorMessage::UndefinedConstant(x, _) => {
                push_str(&mut s, "Undefined constant: ");
                push_str(&mut s, x.as_str());
            },
            SerializationErrorMessage::CyclicDependency(v) => {
                push_str(&mut s, "Cyclic dependency detected in constant evaluation: ");
                let ghost start = s@;
                let ghost names = crate::table::names(v@);
                let mut k: usize = 0;
                while k < v.len()
                    invariant
                        k <= v@.len(),
                        names == crate::table::names(v@),
                        s@ == start + join_arrow(names.take(k as int)),
                    decreases v@.len() - k,
                {
                    assert(names.take(k + 1).drop_last() =~= names.take(k as int));
                    if k > 0 {
                        push_str(&mut s, " -> ");
                    }
                    push_str(&mut s, v[k].as_str());
                    proof {
                        if k == 0 {
                            assert(names.take(1) =~= seq![names[0]]);
                        }
                    }
                    assert(s@ =~= start + join_arrow(names.take(k + 1)));
                    k = k + 1;
                }
                assert(names.take(v@.len() as int) =~= names);
            },
            SerializationErrorMessage::UnknownMnemonic(x) => {
                push_str(&mut s, "Unknown instruction mnemonic: ");
                let up = to_uppercase(x.as_str());
                push_str(&mut s, up.as_str());
            },
            SerializationErrorMessage::MemoryLimitExceeded(a) => {
                push_str(&mut s, "Exceeded memory limit of 256 bytes. This instruction would be placed at address ");
                push_dec(&mut s, *a as u64);
                push_str(&mut s, ", which is out of bounds.");
            },
            SerializationErrorMessage::UnlabeledConstant(_) => {
                push_str(&mut s, "This constant pseudo-instruction does not have a label.");
            },
            SerializationErrorMessage::UnknownError(x) => {
                push_str(&mut s, x.as_str());
            },
        }
        assert(s@ =~= message_text(self@));
        s
    }
}

impl SerializationError {
    /// The text of the error with its span.
    pub fn to_text(&self) -> (s: String)
        ensures
            s@ == error_text(self@),
    {
        let mut s = self.message.to_text();
        push_str(&mut s, " at span ");
        push_dec(&mut s, self.span.start as u64);
        push_str(&mut s, "..");
        push_dec(&mut s, self.span.end as u64);
        assert(s@ =~= error_text(self@));
        s
    }
}

/// The help for a constant with no name after an explicit address whose
/// text is `addr_text`: letters in it mean a hexadecimal address was
/// written where a name was meant.
pub open spec fn unlabeled_constant_help(addr_text: Seq<char>) -> Seq<char> {
    if exists|i: int| 0 <= i < addr_text.len() && !('0' <= #[trigger] addr_text[i] <= '9') {
        "This constant pseudo-instruction does not have a symbolic name. It seems you tried to set a symbolic name and it was instead interpreted as an offset in hexadecimal.\nIn order to resolve this, you must disambiguate by using a symbolic name longer than 2 characters, or which contains at least one non-hexadecimal character."@
    } else {
        "This constant pseudo-instruction does not have a symbolic name, but it seems you tried to set a symbolic name and it was instead interpreted as an offset.\nSymbolic names must contain at least one non-decimal character or be longer than 3 characters."@
    }
}

/// The help for a constant with no name after an explicit address.
pub fn unlabeled_constant_help_text(addr_text: &str) -> (s: String)
    ensures
        s@ == unlabeled_constant_help(addr_text@),
{
    let n = addr_text.unicode_len();
    let mut k: usize = 0;
    let mut all_digits = true;
    while k < n
        invariant
            n == addr_text@.len(),
            k <= n,
            all_digits == (forall|i: int| 0 <= i < k ==> '0' <= #[trigger] addr_text@[i] <= '9'),
        decreases n - k,
    {
        let c = addr_text.get_char(k);
        if !('0' <= c && c <= '9') {
            all_digits = false;
        }
        k = k + 1;
    }
    let mut s = String::new();
    if !all_digits {
        push_str(&mut s, "This constant pseudo-instruction does not have a symbolic name. It seems you tried to set a symbolic name and it was instead interpreted as an offset in hexadecimal.\nIn order to resolve this, you must disambiguate by using a symbolic name longer than 2 characters, or which contains at least one non-hexadecimal character.");
    } else {
        push_str(&mut s, "This constant pseudo-instruction does not have a symbolic name, but it seems you tried to set a symbolic name and it was instead interpreted as an offset.\nSymbolic names must contain at least one non-decimal character or be longer than 3 characters.");
    }
    assert(s@ =~= unlabeled_constant_help(addr_text@));
    s
}

} // verus!
