//! The settings under which a dump runs, as handed over by the command
//! line.
use vstd::prelude::*;

verus! {

/// Which parts of a file to show and how to format the disassembly.
#[derive(Debug)]
pub struct CLIConfig {
    pub file_path: String,
    pub disassemble: bool,
    pub disassemble_symbol: Option<String>,
    pub file_headers: bool,
    pub argument_section: bool,
    pub line_numbers: bool,
    pub section_headers: bool,
    pub data: bool,
    pub full_contents: bool,
    pub stabs: bool,
    pub syms: bool,
    pub reloc: bool,
    pub all_headers: bool,
    pub info: bool,
    pub demangle: bool,
    pub show_no_raw_instr: bool,
    pub show_no_labels: bool,
}

} // verus!
