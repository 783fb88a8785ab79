pub mod common;
pub mod structured_instruction;
pub mod text;
pub mod instruction_text;
pub mod float8;
pub mod machine;
pub mod ast;
pub mod table;
pub mod serialize;
pub mod convert;
pub mod lexer;
pub mod parser;
pub mod errors;
pub mod display;
pub mod ansi;
pub mod windows;
pub mod controls;
pub mod files;
