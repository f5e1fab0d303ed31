//! The library's error type.
use vstd::prelude::*;
use crate::text::copy_string;

verus! {

/// Errors reported by the library.
#[derive(Debug, Clone, PartialEq, Eq)]
pub enum AnnotateError {
    /// Remap arguments did not come in OLD NEW pairs.
    InvalidRemap,
    /// The ELF file has no function symbols.
    NoFunctions,
    /// No function name contains the requested name.
    NoMatchingFunction { name: String },
    /// The picker ended without a selection.
    NoFunctionSelected,
    /// The DWARF line tables could not be read.
    Dwarf { message: String },
    /// A source file could not be read completely.
    SourceRead { path: String, line: usize },
    /// A name is not a mangled C++ symbol.
    DemangleSymbol,
    /// A mangled C++ symbol could not be written out.
    DemangleFormat,
    /// The ELF file could not be parsed.
    ElfParse,
    /// No function symbol has the name.
    FunctionNotFound { name: String },
    /// The function's range passes the end of the address space.
    FunctionRangeOverflow { name: String },
    /// The ELF machine has no disassembler configuration.
    UnsupportedArchitecture { machine: u16 },
    /// The disassembler could not be opened.
    CapstoneInit,
    /// Disassembling failed.
    Disassembly,
    /// No executable section holds the address range.
    NoExecutableSection { start: u64, end: u64 },
    /// The section's bytes lie past the end of the file.
    SectionOutOfBounds { offset: u64 },
    /// The range starts before the section.
    StartBeforeSection { start: u64, section_addr: u64 },
    /// The range ends past the section's bytes.
    RangeExceedsSection { start: u64, end: u64, data_len: usize },
    /// A side of the context option is not a number.
    InvalidContextNumber { text: String },
    /// The context option is neither `N` nor `N:M`.
    InvalidContextFormat { text: String },
}

impl AnnotateError {
    /// A copy of this error.
    pub fn duplicate(&self) -> (r: AnnotateError)
        ensures
            r == *self,
    {
        match self {
            AnnotateError::InvalidRemap => AnnotateError::InvalidRemap,
            AnnotateError::NoFunctions => AnnotateError::NoFunctions,
            AnnotateError::NoMatchingFunction { name } => AnnotateError::NoMatchingFunction { name: copy_string(name) },
            AnnotateError::NoFunctionSelected => AnnotateError::NoFunctionSelected,
            AnnotateError::Dwarf { message } => AnnotateError::Dwarf { message: copy_string(message) },
            AnnotateError::SourceRead { path, line } => AnnotateError::SourceRead { path: copy_string(path), line: *line },
            AnnotateError::DemangleSymbol => AnnotateError::DemangleSymbol,
            AnnotateError::DemangleFormat => AnnotateError::DemangleFormat,
            AnnotateError::ElfParse => AnnotateError::ElfParse,
            AnnotateError::FunctionNotFound { name } => AnnotateError::FunctionNotFound { name: copy_string(name) },
            AnnotateError::FunctionRangeOverflow { name } => AnnotateError::FunctionRangeOverflow { name: copy_string(name) },
            AnnotateError::UnsupportedArchitecture { machine } => AnnotateError::UnsupportedArchitecture { machine: *machine },
            AnnotateError::CapstoneInit => AnnotateError::CapstoneInit,
            AnnotateError::Disassembly => AnnotateError::Disassembly,
            AnnotateError::NoExecutableSection { start, end } => AnnotateError::NoExecutableSection { start: *start, end: *end },
            AnnotateError::SectionOutOfBounds { offset } => AnnotateError::SectionOutOfBounds { offset: *offset },
            AnnotateError::StartBeforeSection { start, section_addr } => AnnotateError::StartBeforeSection { start: *start, section_addr: *section_addr },
            AnnotateError::RangeExceedsSection { start, end, data_len } => AnnotateError::RangeExceedsSection { start: *start, end: *end, data_len: *data_len },
            AnnotateError::InvalidContextNumber { text } => AnnotateError::InvalidContextNumber { text: copy_string(text) },
            AnnotateError::InvalidContextFormat { text } => AnnotateError::InvalidContextFormat { text: copy_string(text) },
        }
    }
}

} // verus!
