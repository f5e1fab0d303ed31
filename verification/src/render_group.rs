//! A group of instructions rendered together with their source lines.
use vstd::prelude::*;

verus! {

/// Instructions that share a source location, with the source lines shown for them.
#[derive(Debug)]
pub struct RenderGroup {
    pub color: String,
    pub src_file: Option<String>,
    pub src_line_start: Option<usize>,
    pub src_lines: Vec<String>,
    /// (address, bytes in hexadecimal, mnemonic)
    pub instructions: Vec<(u64, String, String)>,
    pub show_file_header: bool,
}

} // verus!
