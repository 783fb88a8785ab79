use brookshear::common::Register;
use brookshear::float8::{float8_add, float8_checked_add, float8_to_string};
use brookshear::machine::{BrookshearMachine, BrookshearMachineError};
use brookshear::parser::parse_asm_file;
use brookshear::serialize::serialize_program_to_binary;
use brookshear::structured_instruction::{CmpjmpOperator, StructuredInstruction};

fn reference_to_f32(flt: u8) -> f32 {
    let sign = if flt & 0b1000_0000 != 0 { -1.0 } else { 1.0 };
    let exp = flt >> 4 & 0b0111;
    let mantissa = flt & 0b0000_1111;
    sign * (mantissa as f32) * f32::exp2(exp as f32 - ((1 << 2) as f32) - 4.0)
}

fn reference_from_f32(flt: f32) -> Option<u8> {
    if flt == 0.0 {
        return Some(0);
    }
    let sign = if flt < 0.0 { 0b1000_0000 } else { 0 };
    let abs_flt = flt.abs();
    let exp = (abs_flt.log2().floor() + (1 << 2) as f32) as u8 + 1;
    let mantissa = (abs_flt / f32::exp2(exp as f32 - ((1 << 2) as f32) - 4.0)).round() as u8;
    if !(0b000..0b1000).contains(&exp) || mantissa > 0b1111 {
        return None;
    }
    Some(sign | ((exp & 0b0111) << 4) | (mantissa & 0b0000_1111))
}

#[test]
fn float8_addition_matches_f32_arithmetic() {
    for a in 0..=255u8 {
        for b in 0..=255u8 {
            let expected = reference_from_f32(reference_to_f32(a) + reference_to_f32(b));
            assert_eq!(float8_checked_add(a, b), expected, "adding {:02X} and {:02X}", a, b);
            assert_eq!(float8_checked_add(a, b), float8_checked_add(b, a));
        }
    }
}

#[test]
fn float8_text_matches_f32_display() {
    for b in 0..=255u8 {
        assert_eq!(float8_to_string(b), reference_to_f32(b).to_string(), "byte {:02X}", b);
    }
    assert_eq!(float8_to_string(0x80), "-0");
    assert_eq!(float8_to_string(0x3C), "0.375");
}

#[test]
fn float8_add_example() {
    // 0.5 + 0.25 = 0.75
    assert_eq!(float8_add(0x48, 0x44), 0x4C);
}

#[test]
fn every_decodable_pair_encodes_back_to_an_equivalent_instruction() {
    for b0 in 0..=255u8 {
        for b1 in 0..=255u8 {
            if let Some(i) = StructuredInstruction::from_bytes([b0, b1]) {
                assert_eq!(StructuredInstruction::from_bytes(i.as_bytes()), Some(i));
            }
        }
    }
}

#[test]
fn describe_and_disasm_texts() {
    let i = StructuredInstruction::MovImmToReg(0x80, Register::R1);
    assert_eq!(i.describe(), "Load R1 with value 80");
    assert_eq!(i.disasm(), "MOV 80 -> R1");
    assert_eq!(StructuredInstruction::Nop.disasm(), "NOP");
    assert_eq!(StructuredInstruction::Nop.describe(), "No operation");
    let j = StructuredInstruction::JmpIfEqual(Register::R3, 0x10);
    assert_eq!(j.describe(), "Jump to 10 if R3 == R0");
    assert_eq!(j.disasm(), "JMPEQ 10, R3");
    let k = StructuredInstruction::JumpWithComparison(CmpjmpOperator::Ge, Register::R3, Register::R1);
    assert_eq!(k.disasm(), "JMPGE R3, R1");
    assert_eq!(StructuredInstruction::RotRegRight(Register::R2, 10).disasm(), "ROT R2, 0A");
}

#[test]
fn disassembly_assembles_back() {
    for b0 in 0..=255u8 {
        for b1 in [0x00u8, 0x01, 0x07, 0x0A, 0x10, 0x23, 0x45, 0x7F, 0x80, 0x9C, 0xF0, 0xFF] {
            if let Some(i) = StructuredInstruction::from_bytes([b0, b1]) {
                let text = i.disasm();
                let lines = parse_asm_file(&text).unwrap();
                let image = serialize_program_to_binary(&lines).unwrap();
                assert_eq!([image[0], image[1]], i.as_bytes(), "{}", text);
            }
        }
    }
}

#[test]
fn step_advances_and_undo_reverts() {
    let mut m = BrookshearMachine::new_with_history_limit(16);
    let mut image = [0u8; 256];
    image[0] = 0x21;
    image[1] = 0x80; // MOV 80 -> R1
    image[2] = 0x31;
    image[3] = 0x40; // MOV R1 -> [40]
    image[4] = 0xC0;
    image[5] = 0x00; // HALT
    m.load_memory(image);
    assert_eq!(m.step().unwrap(), true);
    assert_eq!(m.get_pc(), 2);
    assert_eq!(m.get_register(Register::R1), 0x80);
    assert_eq!(m.step().unwrap(), true);
    assert_eq!(m.get_memory(0x40), 0x80);
    assert!(m.undo_step());
    assert_eq!(m.get_memory(0x40), 0x00);
    assert_eq!(m.get_pc(), 2);
    assert!(m.undo_step());
    assert_eq!(m.get_register(Register::R1), 0x00);
    assert_eq!(m.get_pc(), 0);
    assert!(!m.undo_step());
    assert_eq!(m.step().unwrap(), true);
    assert_eq!(m.step().unwrap(), true);
    assert_eq!(m.step().unwrap(), false);
    assert_eq!(m.get_pc(), 4);
}

#[test]
fn a_machine_without_history_steps_and_keeps_nothing() {
    let mut m = BrookshearMachine::new();
    m.set_memory(0x00, 0x21);
    m.set_memory(0x01, 0x05);
    assert!(matches!(m.step(), Ok(true)));
    assert_eq!(m.get_register(Register::R1), 0x05);
    assert_eq!(m.get_pc(), 0x02);
    assert!(!m.undo_step());
    assert_eq!(m.get_register(Register::R1), 0x05);
}

#[test]
fn invalid_instruction_is_reported() {
    let mut m = BrookshearMachine::new();
    m.set_memory(0, 0x00);
    m.set_memory(1, 0x00);
    match m.step() {
        Err(BrookshearMachineError::InvalidInstruction(addr, bytes)) => {
            assert_eq!(addr, 0);
            assert_eq!(bytes, [0, 0]);
        }
        other => panic!("unexpected {:?}", other),
    }
}

#[test]
fn conditional_jump_uses_unsigned_comparison() {
    let mut m = BrookshearMachine::new_with_history_limit(16);
    let mut image = [0u8; 256];
    // JMPGT R3 <- target in R3, compare R2 with R0
    image[0] = 0xF2;
    image[1] = 0x43;
    m.load_memory(image);
    *m.get_register_mut(Register::R2) = 0x90;
    *m.get_register_mut(Register::R0) = 0x10;
    *m.get_register_mut(Register::R3) = 0x30;
    assert_eq!(m.step().unwrap(), true);
    assert_eq!(m.get_pc(), 0x30);
}
