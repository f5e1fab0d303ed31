//! Verified core of an ELF source/assembly annotation tool.

pub mod error;
pub mod text;
pub mod types;
pub mod paths;
pub mod source_reader;
pub mod ranges;
pub mod order;
pub mod source_view;
pub mod demangle;
pub mod elf;
pub mod disasm;
pub mod dwarf;
pub mod dwarf_read;
pub mod cli;
pub mod render_group;
pub mod annotate;
pub mod dump;
pub mod tui_state;
pub mod viewer;
pub mod backend;
pub mod render;
pub mod text_listings;
pub mod listing;
