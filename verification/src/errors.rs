//! The error taxonomy shared by both file-format decoders.
//!
//! Every parse or render step is fallible and propagates immediately: the
//! first structural error aborts the whole file's processing.
use vstd::prelude::*;

verus! {

/// Everything that can go wrong while decoding or disassembling a file.
#[derive(Debug, Clone, Copy, PartialEq, Eq, Structural)]
pub enum DumpError {
    /// The cursor was exhausted before an expected field completed.
    UnexpectedEndOfInput,
    /// A constant-value type tag outside the known range.
    UnknownConstantType(u8),
    /// An opcode byte with no entry in the arity table.
    UnknownOpcode(u8),
    /// A section marker that names no known section.
    UnknownSectionMarker,
    /// A declared size that does not match the decoded content, or a
    /// required marker sequence that is absent.
    MalformedSectionStructure,
    /// An operand index or relocation entry that points outside its table.
    DanglingReference,
    /// A symbol kind for which no operand rendering rule exists.
    UnsupportedSymbolKind,
    /// Neither file magic was found.
    UnrecognizedFileType,
}

impl DumpError {
    /// A short human-readable description of the error.
    pub fn message(&self) -> (r: &'static str)
        ensures
            r@ == self.spec_message(),
    {
        match self {
            DumpError::UnexpectedEndOfInput => "Unexpected EOF reached",
            DumpError::UnknownConstantType(_) => "Unknown argument type encountered",
            DumpError::UnknownOpcode(_) => "Unknown opcode encountered",
            DumpError::UnknownSectionMarker => "Unknown section marker encountered",
            DumpError::MalformedSectionStructure => "Malformed section structure",
            DumpError::DanglingReference => "Reference outside its target table",
            DumpError::UnsupportedSymbolKind => "Symbol kind cannot be rendered here",
            DumpError::UnrecognizedFileType => "File type not recognized",
        }
    }

    /// The text that `message` returns, as a sequence of characters.
    pub open spec fn spec_message(&self) -> Seq<char> {
        match self {
            DumpError::UnexpectedEndOfInput => "Unexpected EOF reached"@,
            DumpError::UnknownConstantType(_) => "Unknown argument type encountered"@,
            DumpError::UnknownOpcode(_) => "Unknown opcode encountered"@,
            DumpError::UnknownSectionMarker => "Unknown section marker encountered"@,
            DumpError::MalformedSectionStructure => "Malformed section structure"@,
            DumpError::DanglingReference => "Reference outside its target table"@,
            DumpError::UnsupportedSymbolKind => "Symbol kind cannot be rendered here"@,
            DumpError::UnrecognizedFileType => "File type not recognized"@,
        }
    }
}

} // verus!
