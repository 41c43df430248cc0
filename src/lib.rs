//! Disassembler core for 6502 cartridge images.
//!
//! The image is decoded segment by segment, guided by a description of
//! which address ranges hold code, bytes or words and which addresses carry
//! names. Decoding produces a sequence of listing tokens; `output` renders
//! them as plain text or markup.

pub mod cpu6502;
pub mod error;
pub mod nesfile;
pub mod symtab;
pub mod code;
pub mod data;
pub mod rom;
pub mod line;
pub mod output;
pub mod text;
