use brookshear::common::Register;
use brookshear::lexer::AsmToken;
use brookshear::parser::parse_asm_file;
use brookshear::serialize::{serialize_program_from_text_to_text, serialize_program_to_binary};

#[test]
fn test_asm_tokenizer() {
    let input = "MOV R1, [R2]";
    let tokens: Vec<AsmToken> = AsmToken::lexer(input)
        .into_iter()
        .collect::<Result<_, _>>()
        .unwrap();
    println!("{:?}", tokens);
    assert_eq!(tokens.len(), 6);
    assert!(matches!(&tokens[0], AsmToken::Identifier(s) if s == "MOV"));
    assert!(matches!(tokens[1], AsmToken::Register(Register::R1)));
    assert!(matches!(tokens[2], AsmToken::Comma));
    assert!(matches!(tokens[3], AsmToken::LeftBracket));
    assert!(matches!(tokens[4], AsmToken::Register(Register::R2)));
    assert!(matches!(tokens[5], AsmToken::RightBracket));
}

#[test]
fn assembles_small_program_to_binary() {
    let src = "MOV 80 -> R1\nHALT\n";
    let lines = parse_asm_file(src).unwrap();
    let image = serialize_program_to_binary(&lines).unwrap();
    assert_eq!(&image[0..4], &[0x21, 0x80, 0xC0, 0x00]);
    assert!(image[4..].iter().all(|b| *b == 0));
}

#[test]
fn listing_shows_source() {
    let src = "start: MOV 80 -> R1\nDATA 01, 02\n";
    let lines = parse_asm_file(src).unwrap();
    let text = serialize_program_from_text_to_text(&lines, src).unwrap();
    assert_eq!(
        text,
        "00: 2180 // MOV 80 -> R1\n02: 0102 // DATA 01, 02\n         // DATA 01, 02\n"
    );
}

#[test]
fn spans_fall_between_characters() {
    let src = "MOV é -> R1";
    let errs = match parse_asm_file(src) {
        Ok(_) => panic!("expected a parse error"),
        Err(errs) => errs,
    };
    let span = errs[0].span;
    assert_eq!((span.start, span.end), (4, 6));
    assert_eq!(&src[span.start..span.end], "é");
    assert!(matches!(errs[0].found, Some(AsmToken::Unrecognized)));

    let src = "// café\nMOV 80 -> R1 // naïve\n";
    let lines = parse_asm_file(src).unwrap();
    let instr = lines
        .iter()
        .find_map(|l| l.inner.instruction.as_ref())
        .unwrap();
    assert_eq!(&src[instr.span.start..instr.span.end], "MOV 80 -> R1");
    let text = serialize_program_from_text_to_text(&lines, src).unwrap();
    assert_eq!(text, "00: 2180 // MOV 80 -> R1\n");
}
