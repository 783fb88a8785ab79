use vstd::prelude::*;

use crate::ast::{lines_v, Line, Spanned};
use crate::lexer::{lexes, spec_lex};
use crate::machine::{memory_image_from_bytes, wrong_size_message, BrookshearMachine, MachineState};
use crate::parser::{parse_asm_file, spec_parse, ParseError};
use crate::serialize::{
    assembly_panics, panics, serialize_program_from_text_to_text,
    serialize_program_to_binary, spec_image, spec_listing, spec_serialize_pads, spec_serialize_program, Fault,
    SerializationError,
};
use vstd::utf8::{encode_utf8, valid_utf8};

verus! {

/// Why a text could not be assembled into a memory image.
#[derive(Debug)]
pub enum AssembleFailure {
    /// The text holds a decimal literal above 255, which the lexer cannot
    /// read.
    Unlexable,
    /// The text does not parse; the error where parsing stopped.
    Parse(Vec<ParseError>),
    /// Assembling the program panics: it places code after a data byte in
    /// the same run, or counts addresses past `u32::MAX`.
    Unassemblable,
    /// The program parses, but does not assemble.
    Assembly(SerializationError),
}

/// What assembling a parsed program gives: the image its output entries
/// write, its assembly error, or that it cannot be handled.
pub open spec fn assembles_to(program: Seq<Spanned<Line>>, r: Result<[u8; 256], AssembleFailure>) -> bool {
    if panics(spec_serialize_program(program)) {
        r matches Err(AssembleFailure::Unassemblable)
    } else {
        match spec_serialize_program(program) {
            Ok(es) => r matches Ok(img) && img@ == spec_image(es, spec_serialize_pads(program)),
            Err(f) => r matches Err(AssembleFailure::Assembly(e)) && f == Fault::Error(e@),
        }
    }
}

/// What assembling the text `t` gives: it must lex and parse, and the lines
/// it parses to must assemble.
pub open spec fn text_assembles_to(t: Seq<char>, r: Result<[u8; 256], AssembleFailure>) -> bool {
    match spec_lex(encode_utf8(t), 0) {
        None => r matches Err(AssembleFailure::Unlexable),
        Some(ts) => match spec_parse(ts, encode_utf8(t).len() as usize) {
            Err(e) => r matches Err(AssembleFailure::Parse(errs)) && errs@.len() == 1 && errs@[0].view() == e,
            Ok(ls) => exists|program: Seq<Spanned<Line>>| #[trigger] lines_v(program) == ls && assembles_to(program, r),
        },
    }
}

/// Assembles source text into a memory image: lexes, parses, checks that
/// the program can be handled, then assembles it.
pub fn assemble_text(text: &str) -> (r: Result<[u8; 256], AssembleFailure>)
    ensures
        text_assembles_to(text@, r),
{
    if !lexes(text) {
        return Err(AssembleFailure::Unlexable);
    }
    let lines = match parse_asm_file(text) {
        Ok(l) => l,
        Err(errs) => return Err(AssembleFailure::Parse(errs)),
    };
    let r = if assembly_panics(&lines) {
        Err(AssembleFailure::Unassemblable)
    } else {
        match serialize_program_to_binary(&lines) {
            Ok(img) => Ok(img),
            Err(e) => Err(AssembleFailure::Assembly(e)),
        }
    };
    proof {
        assert(assembles_to(lines@, r));
    }
    r
}

/// What listing a parsed program whose source is `text` gives: its output
/// entries beside their source, its assembly error, or that it cannot be
/// handled.
pub open spec fn listed_as(program: Seq<Spanned<Line>>, text: Seq<u8>, r: Result<String, AssembleFailure>) -> bool {
    if panics(spec_serialize_program(program)) {
        r matches Err(AssembleFailure::Unassemblable)
    } else {
        match spec_serialize_program(program) {
            Ok(es) => r matches Ok(s) && s@ == spec_listing(text, es),
            Err(f) => r matches Err(AssembleFailure::Assembly(e)) && f == Fault::Error(e@),
        }
    }
}

/// What listing the text `t` gives: it must lex and parse, and the lines it
/// parses to must assemble.
pub open spec fn text_listed_as(t: Seq<char>, r: Result<String, AssembleFailure>) -> bool {
    match spec_lex(encode_utf8(t), 0) {
        None => r matches Err(AssembleFailure::Unlexable),
        Some(ts) => match spec_parse(ts, encode_utf8(t).len() as usize) {
            Err(e) => r matches Err(AssembleFailure::Parse(errs)) && errs@.len() == 1 && errs@[0].view() == e,
            Ok(ls) => exists|program: Seq<Spanned<Line>>| #[trigger] lines_v(program) == ls && listed_as(program, encode_utf8(t), r),
        },
    }
}

/// Assembles source text into a listing, one line per output entry with
/// its address, its two bytes and its source: lexes, parses, checks that
/// the program can be handled, then assembles it.
pub fn assemble_text_to_listing(text: &str) -> (r: Result<String, AssembleFailure>)
    ensures
        text_listed_as(text@, r),
{
    if !lexes(text) {
        return Err(AssembleFailure::Unlexable);
    }
    let lines = match parse_asm_file(text) {
        Ok(l) => l,
        Err(errs) => return Err(AssembleFailure::Parse(errs)),
    };
    let r = if assembly_panics(&lines) {
        Err(AssembleFailure::Unassemblable)
    } else {
        match serialize_program_from_text_to_text(&lines, text) {
            Ok(s) => Ok(s),
            Err(e) => Err(AssembleFailure::Assembly(e)),
        }
    };
    proof {
        assert(listed_as(lines@, encode_utf8(text@), r));
    }
    r
}

/// Reads bytes as UTF-8 text with `std::str::from_utf8`, which accepts
/// exactly the valid UTF-8 encodings and gives the text they encode.
#[verifier::external_body]
fn str_from_utf8(bytes: &[u8]) -> (r: Option<&str>)
    ensures
        r is Some == valid_utf8(bytes@),
        r matches Some(s) ==> encode_utf8(s@) == bytes@,
{
    std::str::from_utf8(bytes).ok()
}

/// What assembling the text `t` and loading it does to the machine: where
/// it assembles, the memory becomes the image and nothing else changes;
/// where it does not, the machine stays as it was.
pub open spec fn text_loaded(t: Seq<char>, before: MachineState, after: MachineState, r: Result<(), AssembleFailure>) -> bool {
    exists|a: Result<[u8; 256], AssembleFailure>| #![trigger text_assembles_to(t, a)] {
        &&& text_assembles_to(t, a)
        &&& match a {
            Ok(img) => r is Ok && after == with_memory(before, img@),
            Err(f) => r == Err::<(), AssembleFailure>(f) && after == before,
        }
    }
}

/// Assembles a program's text and loads the image into the machine's
/// memory; where assembly fails, the machine is left unchanged.
pub fn assemble_and_load_text(machine: &mut BrookshearMachine, text: &str) -> (r: Result<(), AssembleFailure>)
    ensures
        text_loaded(text@, old(machine)@, final(machine)@, r),
{
    let a = assemble_text(text);
    let ghost av = a;
    let r = match a {
        Ok(image) => {
            machine.load_memory(image);
            Ok(())
        },
        Err(f) => Err(f),
    };
    proof {
        assert(text_assembles_to(text@, av));
    }
    r
}

/// What a file picked in the emulator is for.
#[derive(Debug, Clone, Copy, PartialEq, Eq, Structural)]
pub enum PendingFileType {
    AssembleAndLoad,
    LoadMemory,
    AssembleToFile,
    LoadDisplayImage,
}

/// What comes of a picked file.
#[derive(Debug)]
pub enum FileOutcome {
    /// The machine's memory was loaded; the message to show.
    Loaded(String),
    /// The assembled image, to be saved to a file.
    Save([u8; 256]),
    /// The file is an image, to be decoded into the display.
    DecodeDisplayImage,
}

/// Why a picked file was refused.
#[derive(Debug)]
pub enum LoadFailure {
    /// A message to show.
    Message(String),
    /// The file's text does not assemble.
    Assemble(AssembleFailure),
}

/// The machine with its memory replaced by `image`.
pub open spec fn with_memory(s: MachineState, image: Seq<u8>) -> MachineState {
    MachineState { memory: image, ..s }
}

/// What a picked file does to the machine, and what comes of it. A memory
/// file must hold 256 bytes; an assembly file must be UTF-8 text that
/// assembles; where anything fails, the machine stays as it was.
pub open spec fn file_applied(
    kind: PendingFileType,
    contents: Seq<u8>,
    before: MachineState,
    after: MachineState,
    r: Result<FileOutcome, LoadFailure>,
) -> bool {
    match kind {
        PendingFileType::LoadDisplayImage => r matches Ok(FileOutcome::DecodeDisplayImage) && after == before,
        PendingFileType::LoadMemory => if contents.len() == 256 {
            &&& r matches Ok(FileOutcome::Loaded(m)) && m@ == "Successfully loaded memory."@
            &&& after == with_memory(before, contents)
        } else {
            &&& r matches Err(LoadFailure::Message(m)) && m@ == wrong_size_message(contents.len())
            &&& after == before
        },
        PendingFileType::AssembleAndLoad => if !valid_utf8(contents) {
            &&& r matches Err(LoadFailure::Message(m)) && m@ == "Failed to parse file contents as UTF-8"@
            &&& after == before
        } else {
            exists|t: Seq<char>, a: Result<[u8; 256], AssembleFailure>| #![trigger text_assembles_to(t, a)] {
                &&& encode_utf8(t) == contents
                &&& text_assembles_to(t, a)
                &&& match a {
                    Ok(img) => (r matches Ok(FileOutcome::Loaded(m)) && m@ == "Successfully loaded program."@)
                        && after == with_memory(before, img@),
                    Err(f) => r == Err::<FileOutcome, LoadFailure>(LoadFailure::Assemble(f)) && after == before,
                }
            }
        },
        PendingFileType::AssembleToFile => if !valid_utf8(contents) {
            &&& r matches Err(LoadFailure::Message(m))
                && m@ == "File does not contain valid UTF-8. Only UTF-8 encoded files are supported."@
            &&& after == before
        } else {
            &&& after == before
            &&& exists|t: Seq<char>, a: Result<[u8; 256], AssembleFailure>| #![trigger text_assembles_to(t, a)] {
                &&& encode_utf8(t) == contents
                &&& text_assembles_to(t, a)
                &&& match a {
                    Ok(img) => r matches Ok(FileOutcome::Save(i)) && i@ == img@,
                    Err(f) => r == Err::<FileOutcome, LoadFailure>(LoadFailure::Assemble(f)),
                }
            }
        },
    }
}

/// Applies a file picked in the emulator: loads a memory image, assembles
/// and loads a program, assembles a program to be saved, or passes an image
/// on to be decoded into the display.
pub fn apply_loaded_file(machine: &mut BrookshearMachine, kind: PendingFileType, contents: &[u8]) -> (r: Result<
    FileOutcome,
    LoadFailure,
>)
    ensures
        file_applied(kind, contents@, old(machine)@, final(machine)@, r),
{
    match kind {
        PendingFileType::LoadDisplayImage => Ok(FileOutcome::DecodeDisplayImage),
        PendingFileType::LoadMemory => match memory_image_from_bytes(contents) {
            Ok(image) => {
                machine.load_memory(image);
                Ok(FileOutcome::Loaded("Successfully loaded memory.".to_owned()))
            },
            Err(m) => Err(LoadFailure::Message(m)),
        },
        PendingFileType::AssembleAndLoad => match str_from_utf8(contents) {
            None => Err(LoadFailure::Message("Failed to parse file contents as UTF-8".to_owned())),
            Some(text) => match assemble_and_load_text(machine, text) {
                Ok(()) => Ok(FileOutcome::Loaded("Successfully loaded program.".to_owned())),
                Err(f) => Err(LoadFailure::Assemble(f)),
            },
        },
        PendingFileType::AssembleToFile => match str_from_utf8(contents) {
            None => Err(LoadFailure::Message(
                "File does not contain valid UTF-8. Only UTF-8 encoded files are supported.".to_owned(),
            )),
            Some(text) => {
                let a = assemble_text(text);
                let ghost av = a;
                let r = match a {
                    Ok(image) => Ok(FileOutcome::Save(image)),
                    Err(f) => Err(LoadFailure::Assemble(f)),
                };
                proof {
                    assert(text_assembles_to(text@, av));
                }
                r
            },
        },
    }
}

} // verus!
