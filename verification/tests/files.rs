use brookshear::files::{apply_loaded_file, assemble_and_load_text, assemble_text, assemble_text_to_listing, AssembleFailure, FileOutcome, LoadFailure, PendingFileType};
use brookshear::machine::BrookshearMachine;

#[test]
fn memory_file_loads_when_it_holds_256_bytes() {
    let mut m = BrookshearMachine::new();
    let bytes: Vec<u8> = (0..=255u8).collect();
    match apply_loaded_file(&mut m, PendingFileType::LoadMemory, &bytes) {
        Ok(FileOutcome::Loaded(msg)) => assert_eq!(msg, "Successfully loaded memory."),
        _ => panic!("expected the memory to load"),
    }
    assert_eq!(m.get_memory(0x42), 0x42);
    let mut m = BrookshearMachine::new();
    m.set_memory(3, 7);
    match apply_loaded_file(&mut m, PendingFileType::LoadMemory, &bytes[..10]) {
        Err(LoadFailure::Message(msg)) => assert_eq!(msg, "File is the wrong size. Expected 256 bytes, got: 10"),
        _ => panic!("expected a size error"),
    }
    assert_eq!(m.get_memory(3), 7);
}

#[test]
fn failed_assembly_leaves_memory_unchanged() {
    let mut m = BrookshearMachine::new();
    m.set_memory(0, 0x99);
    match apply_loaded_file(&mut m, PendingFileType::AssembleAndLoad, b"MOV R1 ->") {
        Err(LoadFailure::Assemble(AssembleFailure::Parse(errs))) => assert_eq!(errs.len(), 1),
        _ => panic!("expected a parse error"),
    }
    assert_eq!(m.get_memory(0), 0x99);
    match apply_loaded_file(&mut m, PendingFileType::AssembleAndLoad, b"MOV nothing -> R1") {
        Err(LoadFailure::Assemble(AssembleFailure::Assembly(_))) => {}
        _ => panic!("expected an assembly error"),
    }
    assert_eq!(m.get_memory(0), 0x99);
    match apply_loaded_file(&mut m, PendingFileType::AssembleAndLoad, &[0xFF, 0xFE]) {
        Err(LoadFailure::Message(msg)) => assert_eq!(msg, "Failed to parse file contents as UTF-8"),
        _ => panic!("expected a UTF-8 error"),
    }
    match apply_loaded_file(&mut m, PendingFileType::AssembleAndLoad, b"MOV 300_d -> R1") {
        Err(LoadFailure::Assemble(AssembleFailure::Unlexable)) => {}
        _ => panic!("expected an unreadable literal"),
    }
    assert_eq!(m.get_memory(0), 0x99);
}

#[test]
fn assembled_program_loads_or_is_saved() {
    let mut m = BrookshearMachine::new();
    match apply_loaded_file(&mut m, PendingFileType::AssembleAndLoad, b"MOV 80 -> R1\nHALT\n") {
        Ok(FileOutcome::Loaded(msg)) => assert_eq!(msg, "Successfully loaded program."),
        _ => panic!("expected the program to load"),
    }
    assert_eq!([m.get_memory(0), m.get_memory(1), m.get_memory(2)], [0x21, 0x80, 0xC0]);
    let mut fresh = BrookshearMachine::new();
    match apply_loaded_file(&mut fresh, PendingFileType::AssembleToFile, b"HALT") {
        Ok(FileOutcome::Save(image)) => assert_eq!(&image[0..2], &[0xC0, 0x00]),
        _ => panic!("expected an image to save"),
    }
    assert_eq!(fresh.get_memory(0), 0);
    assert!(matches!(
        apply_loaded_file(&mut fresh, PendingFileType::LoadDisplayImage, b"png"),
        Ok(FileOutcome::DecodeDisplayImage)
    ));
    assert_eq!(&assemble_text("DATA 01\nx: CONST 2\nHALT").unwrap()[0..4], &[0x01, 0x00, 0xC0, 0x00]);
}

#[test]
fn text_is_listed_or_refused() {
    assert_eq!(
        assemble_text_to_listing("DATA 01, 02\nhalt\n").unwrap(),
        "00: 0102 // DATA 01, 02\n         // DATA 01, 02\n02: C000 // halt\n"
    );
    assert!(matches!(assemble_text_to_listing("MOV 300_d -> R1"), Err(AssembleFailure::Unlexable)));
    assert!(matches!(assemble_text_to_listing("MOV -> R1 R2"), Err(AssembleFailure::Parse(_))));
    assert!(matches!(assemble_text_to_listing("FOO R1"), Err(AssembleFailure::Assembly(_))));
}

#[test]
fn mnemonics_ignore_case() {
    assert_eq!(&assemble_text("JmP end\nJMP R1\nend: halt").unwrap()[0..6], &[0xB0, 0x04, 0xF0, 0x01, 0xC0, 0x00]);
}

#[test]
fn assembled_text_loads_or_leaves_memory_alone() {
    let mut m = BrookshearMachine::new();
    m.set_memory(0x10, 0x77);
    assert!(matches!(assemble_and_load_text(&mut m, "FOO R1"), Err(AssembleFailure::Assembly(_))));
    assert_eq!(m.get_memory(0x10), 0x77);
    assert!(assemble_and_load_text(&mut m, "MOV 5 -> R1\nHALT").is_ok());
    assert_eq!((m.get_memory(0x00), m.get_memory(0x01), m.get_memory(0x02)), (0x21, 0x05, 0xC0));
    assert_eq!(m.get_memory(0x10), 0x00);
}
