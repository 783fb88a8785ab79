use brookshear::errors::{
    parse_error_label_text, parse_error_message_text, parse_errors_to_string, semantic_error_to_string,
    semantic_errors_to_string,
};
use brookshear::lexer::{spanned_tokens, AsmToken};
use brookshear::parser::{parse_asm_file, Expected};
use brookshear::serialize::{
    serialize_program, serialize_program_from_text_to_text, serialize_program_to_binary,
    SerializationErrorMessage,
};
use brookshear::common::Register;

fn assemble(src: &str) -> [u8; 256] {
    let lines = parse_asm_file(src).unwrap();
    serialize_program_to_binary(&lines).unwrap()
}

fn assemble_err(src: &str) -> SerializationErrorMessage {
    let lines = parse_asm_file(src).unwrap();
    match serialize_program(&lines) {
        Ok(_) => panic!("expected an assembly error"),
        Err(e) => e.message,
    }
}

fn kinds(src: &str) -> Vec<AsmToken> {
    spanned_tokens(src).into_iter().map(|(t, _)| t).collect()
}

#[test]
fn literal_forms_lex_as_documented() {
    let toks = kinds("0A FF 0A_h 10_d 1010_b 00001010 255_d");
    assert_eq!(
        toks,
        vec![
            AsmToken::LiteralHex(0x0A),
            AsmToken::LiteralHex(0xFF),
            AsmToken::LiteralHex(0x0A),
            AsmToken::LiteralDec(10),
            AsmToken::LiteralBin(10),
            AsmToken::LiteralBin(10),
            AsmToken::LiteralDec(255),
        ]
    );
}

#[test]
fn words_lex_by_their_shape() {
    let toks = kinds("R1 R10 RF AB_h abh A_h start OR x 0x1F");
    assert_eq!(
        toks,
        vec![
            AsmToken::Register(Register::R1),
            AsmToken::Identifier("R10".to_string()),
            AsmToken::Register(Register::RF),
            AsmToken::Identifier("AB_h".to_string()),
            AsmToken::Identifier("abh".to_string()),
            AsmToken::LiteralHex(0x0A),
            AsmToken::Identifier("start".to_string()),
            AsmToken::Identifier("OR".to_string()),
            AsmToken::Identifier("x".to_string()),
            AsmToken::Ambiguous("0x1F".to_string()),
        ]
    );
}

#[test]
fn comments_and_line_breaks() {
    assert_eq!(kinds("HALT // done"), vec![AsmToken::Identifier("HALT".to_string())]);
    assert_eq!(
        kinds("NOP /* a */ HALT"),
        vec![AsmToken::Identifier("NOP".to_string()), AsmToken::Identifier("HALT".to_string())]
    );
    assert_eq!(
        kinds("NOP /* a\n b */ HALT"),
        vec![
            AsmToken::Identifier("NOP".to_string()),
            AsmToken::Newline,
            AsmToken::Identifier("HALT".to_string())
        ]
    );
    assert_eq!(
        kinds("NOP // x\n\n  HALT"),
        vec![
            AsmToken::Identifier("NOP".to_string()),
            AsmToken::Newline,
            AsmToken::Identifier("HALT".to_string())
        ]
    );
    // An unclosed block comment is no comment.
    assert_eq!(kinds("/* x"), vec![AsmToken::Divide, AsmToken::Multiply, AsmToken::Identifier("x".to_string())]);
}

#[test]
fn token_spans_are_byte_offsets() {
    let toks = spanned_tokens("x: MOV é");
    let spans: Vec<(usize, usize)> = toks.iter().map(|(_, s)| (s.start, s.end)).collect();
    assert_eq!(spans, vec![(0, 1), (1, 2), (3, 6), (7, 9)]);
    assert_eq!(toks[3].0, AsmToken::Unrecognized);
}

#[test]
fn punctuation_and_arrow() {
    assert_eq!(
        kinds("-> - + * / % , [ ] ( ) :"),
        vec![
            AsmToken::Into,
            AsmToken::Subtract,
            AsmToken::Add,
            AsmToken::Multiply,
            AsmToken::Divide,
            AsmToken::Modulo,
            AsmToken::Comma,
            AsmToken::LeftBracket,
            AsmToken::RightBracket,
            AsmToken::LeftParen,
            AsmToken::RightParen,
            AsmToken::Colon,
        ]
    );
}

#[test]
fn token_text_matches_display_forms() {
    assert_eq!(AsmToken::Register(Register::RA).to_text(), "RA");
    assert_eq!(AsmToken::LiteralHex(0x0A).to_text(), "0A_h");
    assert_eq!(AsmToken::LiteralDec(7).to_text(), "7_d");
    assert_eq!(AsmToken::LiteralBin(5).to_text(), "00000101_b");
    assert_eq!(AsmToken::Newline.to_text(), "\\n");
    assert_eq!(AsmToken::Unrecognized.to_text(), "<unrecognized>");
    assert_eq!(Expected::Into.to_text(), "'->'");
    assert_eq!(Expected::NumericLiteral.to_text(), "numeric literal");
}

#[test]
fn mov_forms_encode() {
    let image = assemble(
        "MOV 80 -> R1\nMOV R1 -> R2\nMOV [20] -> R3\nMOV R4 -> [21]\nMOV [R5] -> R6\nMOV R7 -> [R8]\n",
    );
    assert_eq!(
        &image[0..12],
        &[0x21, 0x80, 0x40, 0x12, 0x13, 0x20, 0x34, 0x21, 0xD0, 0x65, 0xE0, 0x78]
    );
}

#[test]
fn register_operations_and_jumps_encode() {
    let image = assemble(
        "ADDI R1, R2 -> R3\nADDF R1, R2 -> R3\nOR R1, R2 -> R3\nAND R1, R2 -> R3\nXOR R1, R2 -> R3\nROT R3, (8 - 1)\nJMP 10\nJMP R4\nJMPEQ 10, R5\nJMPNE R6, R7\nNOP\nHALT\n",
    );
    assert_eq!(
        &image[0..24],
        &[
            0x53, 0x12, 0x63, 0x12, 0x73, 0x12, 0x83, 0x12, 0x93, 0x12, 0xA3, 0x07, 0xB0, 0x10, 0xF0,
            0x04, 0xB5, 0x10, 0xF7, 0x16, 0x0F, 0xFF, 0xC0, 0x00
        ]
    );
}

#[test]
fn mnemonics_are_case_insensitive() {
    assert_eq!(assemble("mov 80 -> R1\nhalt"), assemble("MOV 80 -> R1\nHALT"));
}

#[test]
fn data_is_packed_and_code_after_it_is_aligned() {
    let lines = parse_asm_file("DATA 01, 02, 03\nHALT\n").unwrap();
    let out = serialize_program(&lines).unwrap();
    let entries: Vec<(u8, u8, u8)> = out.iter().map(|(a, c)| (*a, c[0].0, c[1].0)).collect();
    assert_eq!(entries, vec![(0x00, 0x01, 0x02), (0x02, 0x03, 0x00), (0x04, 0xC0, 0x00)]);
}

#[test]
fn two_data_statements_share_two_bytes() {
    let image = assemble("DATA 11\nDATA 22\nDATA 33\n");
    assert_eq!(&image[0..4], &[0x11, 0x22, 0x33, 0x00]);
}

#[test]
fn a_lone_data_byte_writes_nothing_after_it() {
    let image = assemble("02: HALT\n01: DATA 05\n");
    assert_eq!(&image[1..4], &[0x05, 0xC0, 0x00]);
    let listing = serialize_program_from_text_to_text(&parse_asm_file("01: DATA 05\n").unwrap(), "01: DATA 05\n").unwrap();
    assert_eq!(listing, "01: 0500 // DATA 05\n");
}

#[test]
fn const_between_data_and_code_moves_nothing() {
    let program = parse_asm_file("DATA 01\nfoo: CONST 5\nHALT").unwrap();
    let out: Vec<(u8, u8, u8)> = serialize_program(&program)
        .unwrap()
        .iter()
        .map(|(a, b)| (*a, b[0].0, b[1].0))
        .collect();
    assert_eq!(out, vec![(0x00, 0x01, 0x00), (0x02, 0xC0, 0x00)]);
}

#[test]
fn an_inserted_const_line_changes_no_byte() {
    let listing = |text: &str| -> Vec<(u8, u8, u8)> {
        serialize_program(&parse_asm_file(text).unwrap())
            .unwrap()
            .iter()
            .map(|(a, b)| (*a, b[0].0, b[1].0))
            .collect()
    };
    let plain = listing("start: DATA 01, 02, 03
JMP start
loop: MOV 5 -> R1
JMP loop
");
    let with_const = listing("start: DATA 01, 02, 03
five: CONST 05
JMP start
loop: MOV 5 -> R1
JMP loop
");
    assert_eq!(plain, with_const);
    assert_eq!(plain, vec![(0x00, 0x01, 0x02), (0x02, 0x03, 0x00), (0x04, 0xB0, 0x00), (0x06, 0x21, 0x05), (0x08, 0xB0, 0x06)]);
}

#[test]
fn labels_and_explicit_addresses() {
    let image = assemble("20: JMP finish\nloop: ADDI R1, R2 -> R1\nfinish: HALT\n");
    assert_eq!(&image[0x20..0x26], &[0xB0, 0x24, 0x51, 0x12, 0xC0, 0x00]);
}

#[test]
fn constants_may_refer_forward() {
    let image = assemble("MOV total -> R1\ntotal: CONST first + second\nfirst: CONST 10_d\nsecond: CONST 05_d\n");
    assert_eq!(&image[0..2], &[0x21, 0x0F]);
}

#[test]
fn arithmetic_wraps_modulo_256() {
    let image = assemble("MOV FF + 2 -> R1\nMOV 00 - 1 -> R2\nMOV 10 * 10 -> R3\nMOV (1 + 2) * 3 -> R4\nMOV 7 / 2 -> R5\nMOV 7 % 2 -> R6\n");
    assert_eq!(
        &image[0..12],
        &[0x21, 0x01, 0x22, 0xFF, 0x23, 0x00, 0x24, 0x09, 0x25, 0x03, 0x26, 0x01]
    );
}

#[test]
fn division_by_zero_is_an_error() {
    let src = "MOV 4 / 0 -> R1\n";
    let e = match serialize_program(&parse_asm_file(src).unwrap()) {
        Ok(_) => panic!("expected an assembly error"),
        Err(e) => e,
    };
    assert!(matches!(&e.message, SerializationErrorMessage::InvalidOperand(m) if m == "Division or remainder by zero in a constant expression"));
    assert_eq!(&src[e.span.start..e.span.end], "4 / 0");
    let m = assemble_err("x: CONST 3 % (1 - 1)\nMOV x -> R1\n");
    assert!(matches!(&m, SerializationErrorMessage::InvalidOperand(_)));
}

#[test]
fn short_hex_looking_names_are_addresses() {
    // `c` is a hexadecimal literal, so `c:` sets the address and the CONST
    // after it has no name.
    match assemble_err("c: CONST 5\n") {
        SerializationErrorMessage::UnlabeledConstant(Some(span)) => assert_eq!((span.start, span.end), (0, 2)),
        other => panic!("unexpected error {:?}", other),
    }
}

#[test]
fn cyclic_constants_are_rejected() {
    match assemble_err("foo: CONST bar + 1\nbar: CONST foo + 1\nMOV foo -> R1\n") {
        SerializationErrorMessage::CyclicDependency(names) => {
            assert_eq!(names, vec!["foo".to_string(), "bar".to_string(), "foo".to_string()]);
        }
        other => panic!("unexpected error {:?}", other),
    }
}

#[test]
fn undefined_constant_is_reported_with_known_names() {
    match assemble_err("here: HALT\nJMP there\n") {
        SerializationErrorMessage::UndefinedConstant(name, known) => {
            assert_eq!(name, "there");
            assert_eq!(known, vec!["here".to_string()]);
        }
        other => panic!("unexpected error {:?}", other),
    }
}

#[test]
fn unknown_mnemonic_is_reported() {
    let e = assemble_err("FOO R1\n");
    assert_eq!(e.to_text(), "Unknown instruction mnemonic: FOO");
}

#[test]
fn const_without_name_is_reported() {
    match assemble_err("20: CONST 5\n") {
        SerializationErrorMessage::UnlabeledConstant(Some(span)) => assert_eq!((span.start, span.end), (0, 3)),
        other => panic!("unexpected error {:?}", other),
    }
}

#[test]
fn wrong_operand_count_is_reported() {
    let e = assemble_err("HALT R1\n");
    assert_eq!(e.to_text(), "Instruction requires exactly 0 operands, but found 1");
}

#[test]
fn memory_limit_is_reported() {
    match assemble_err("FE: HALT\nHALT\n") {
        SerializationErrorMessage::MemoryLimitExceeded(a) => assert_eq!(a, 256),
        other => panic!("unexpected error {:?}", other),
    }
}

#[test]
fn listing_pairs_data_bytes() {
    let src = "DATA 01\nDATA 02\nHALT\n";
    let lines = parse_asm_file(src).unwrap();
    let text = serialize_program_from_text_to_text(&lines, src).unwrap();
    assert_eq!(text, "00: 0102 // DATA 01\n         // DATA 02\n02: C000 // HALT\n");
}

#[test]
fn parse_error_at_end_of_input() {
    let errs = match parse_asm_file("MOV R1 ->") {
        Ok(_) => panic!("expected a parse error"),
        Err(errs) => errs,
    };
    assert_eq!(errs.len(), 1);
    let e = &errs[0];
    assert_eq!((e.span.start, e.span.end), (9, 9));
    assert!(e.found.is_none());
    assert_eq!(parse_error_message_text(e), "Encountered unexpected end of input");
    assert_eq!(parse_error_label_text(e), "found end of input expected register, or '['");
    let report = parse_errors_to_string("MOV R1 ->", "test.asm".to_string(), &errs);
    assert!(report.contains("Encountered unexpected end of input"));
    assert!(report.lines().next().unwrap().ends_with(" Encountered unexpected end of input"));
}

#[test]
fn parse_error_for_c_style_hex() {
    let src = "MOV 0x1F -> R1";
    let errs = match parse_asm_file(src) {
        Ok(_) => panic!("expected a parse error"),
        Err(errs) => errs,
    };
    let e = &errs[0];
    assert!(matches!(&e.found, Some(AsmToken::Ambiguous(s)) if s == "0x1F"));
    assert_eq!(parse_error_message_text(e), "Encountered ambiguous token: '\"0x1F\"'");
    let help = brookshear::errors::parse_error_help_text(e).unwrap();
    assert!(help.ends_with("e.g. 1F_h"));
    let report = parse_errors_to_string(src, "test.asm".to_string(), &errs);
    assert!(report.contains("C-style hexadecimal"));
}

#[test]
fn empty_source_assembles_to_zeros() {
    let lines = parse_asm_file("").unwrap();
    assert_eq!(lines.len(), 1);
    assert_eq!(serialize_program_to_binary(&lines).unwrap(), [0u8; 256]);
}

#[test]
fn assembly_error_report_shows_message_note_and_help() {
    let src = "10: CONST 5\n";
    let error = serialize_program(&parse_asm_file(src).unwrap()).unwrap_err();
    assert!(matches!(error.message, SerializationErrorMessage::UnlabeledConstant(Some(_))));
    let text = semantic_error_to_string(src, "p.asm".to_string(), &error, Some("Give the constant a name.".to_string()));
    assert!(text.lines().next().unwrap().ends_with(" This constant pseudo-instruction does not have a label."));
    assert!(text.contains("purely numeric"));
    assert!(text.contains("Give the constant a name."));
}

#[test]
fn assembly_error_reports_follow_one_another() {
    let src = "FOO R1\n";
    let error = serialize_program(&parse_asm_file(src).unwrap()).unwrap_err();
    let one = semantic_error_to_string(src, "p.asm".to_string(), &error, None);
    assert!(one.lines().next().unwrap().ends_with(" Unknown instruction mnemonic: FOO"));
    assert!(!one.contains("purely numeric"));
    let again = serialize_program(&parse_asm_file(src).unwrap()).unwrap_err();
    let errors = vec![error, again];
    let both = semantic_errors_to_string(src, "p.asm".to_string(), &errors, &[None, None]);
    assert_eq!(both, format!("{}{}", one, one));
    assert_eq!(semantic_errors_to_string(src, "p.asm".to_string(), &[], &[]), "");
}
