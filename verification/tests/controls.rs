use brookshear::controls::{
    action_after_step, normalize_program_counter_input, parse_address_input, program_counter_text,
    submit_program_counter_input, toggle_run, EmulatorAction,
};
use brookshear::machine::{BrookshearMachine, BrookshearMachineError};
use brookshear::windows::{AppWindows, HelpPage, WindowOpenId};

#[test]
fn program_counter_field_keeps_two_hex_digits() {
    assert_eq!(normalize_program_counter_input(""), "00");
    assert_eq!(normalize_program_counter_input("7"), "07");
    assert_eq!(normalize_program_counter_input("a3"), "a3");
    assert_eq!(normalize_program_counter_input("1F2"), "F2");
    assert_eq!(normalize_program_counter_input("x4 zq"), "04");
    assert_eq!(normalize_program_counter_input("é9b"), "9b");
    assert_eq!(program_counter_text(0x0A), "0A");
    assert_eq!(program_counter_text(0xFF), "FF");
}

#[test]
fn address_fields_read_hexadecimal_bytes() {
    assert_eq!(parse_address_input("7f"), Some(0x7F));
    assert_eq!(parse_address_input("+7F"), Some(0x7F));
    assert_eq!(parse_address_input("00ff"), Some(0xFF));
    assert_eq!(parse_address_input("100"), None);
    assert_eq!(parse_address_input(""), None);
    assert_eq!(parse_address_input("+"), None);
    assert_eq!(parse_address_input(" 1"), None);
    assert_eq!(parse_address_input("-1"), None);
    assert_eq!(parse_address_input("g"), None);

    let mut m = BrookshearMachine::new();
    assert_eq!(submit_program_counter_input(&mut m, "3C"), Some(0x3C));
    assert_eq!(m.get_pc(), 0x3C);
    assert_eq!(submit_program_counter_input(&mut m, "zz"), None);
    assert_eq!(m.get_pc(), 0x3C);
}

#[test]
fn run_button_toggles() {
    assert_eq!(toggle_run(EmulatorAction::Continue), EmulatorAction::Idle);
    assert_eq!(toggle_run(EmulatorAction::Idle), EmulatorAction::Continue);
    assert_eq!(toggle_run(EmulatorAction::Step), EmulatorAction::Continue);
}

#[test]
fn windows_open_one_at_a_time() {
    let mut w = AppWindows::new();
    w.open(WindowOpenId::About);
    assert!(w.about_open && !w.help_open && !w.instructions_open);
    w.open(WindowOpenId::Help(Some(HelpPage::Assembler)));
    assert!(w.help_open);
    assert_eq!(w.help_page, HelpPage::Assembler);
    w.open(WindowOpenId::Help(None));
    assert_eq!(w.help_page, HelpPage::Assembler);
    assert_eq!(w.help_page.title(), "Assembler Help");
    w.follow_help_links(false, true);
    assert_eq!(w.help_page, HelpPage::General);
    w.follow_help_links(true, true);
    assert_eq!(w.help_page, HelpPage::Assembler);
    w.open(WindowOpenId::MessageDetails);
    w.update_message_details(true);
    assert!(w.message_details_open);
    w.update_message_details(false);
    assert!(!w.message_details_open);
    assert_eq!(AppWindows::default(), AppWindows::new());
}

#[test]
fn running_stops_at_halt_or_error() {
    let ok_more: Result<bool, BrookshearMachineError> = Ok(true);
    let halted: Result<bool, BrookshearMachineError> = Ok(false);
    let failed: Result<bool, BrookshearMachineError> = Err(BrookshearMachineError::EndOfMemory);
    assert_eq!(action_after_step(EmulatorAction::Continue, &ok_more), EmulatorAction::Continue);
    assert_eq!(action_after_step(EmulatorAction::Continue, &halted), EmulatorAction::Idle);
    assert_eq!(action_after_step(EmulatorAction::Continue, &failed), EmulatorAction::Idle);
    assert_eq!(action_after_step(EmulatorAction::Step, &ok_more), EmulatorAction::Idle);
}

#[test]
fn machine_error_texts() {
    assert_eq!(
        BrookshearMachineError::InvalidInstruction(0x1E, [0xF0, 0x0A]).to_text(),
        "Invalid instruction at address 1E: the bytes F0 0A do not represent a valid instruction."
    );
    assert_eq!(
        BrookshearMachineError::MemoryAccessOutOfBounds(0xFF).to_text(),
        "Memory access out of bounds at address FF"
    );
    assert_eq!(
        BrookshearMachineError::EndOfMemory.to_text(),
        "Reached end of memory without halting"
    );
}
