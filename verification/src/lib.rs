//! An assembler and disassembler for the HACK machine language: the
//! 16-bit instruction set of the teaching computer built throughout
//! the Nand2Tetris course.
//!
//! The crate translates HACK assembly text into 16-bit machine words,
//! emitted either as raw big-endian bytes or as "bintext" lines of
//! ASCII `'0'`/`'1'` characters, and translates either representation
//! back into canonical assembly.

pub mod code;
pub mod inst;
pub mod laws;
pub mod lex;
pub mod loc;
pub mod parse;
pub mod prog;
pub mod scan;
pub mod sym;
pub mod text;

pub use code::DisErr;
pub use inst::{Comp, DecodeErr, Dest, Inst, InstErr, Jump};
pub use loc::Loc;
pub use prog::{Addr, EncodeErr, Item, Prog};
pub use sym::{is_predefined_symbol, SymInfo, SymTable, Symbol};
