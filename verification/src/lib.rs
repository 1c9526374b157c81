//! A decoder and symbolic disassembler for the two binary formats of the kOS
//! virtual machine toolchain: compiled machine-code files (argument pool, code
//! sections and a debug line map) and relocatable object files (section header
//! table, symbol tables, string tables, data pool and relocation entries).
pub mod argument;
pub mod config;
pub mod disasm;
pub mod errors;
pub mod fio;
pub mod instruction;
pub mod ko;
pub mod ksm;
pub mod ksm_reader;
pub mod opcode;
pub mod sections;
pub mod text;

pub use errors::DumpError;
