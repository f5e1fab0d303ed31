//! The ELF backend: the operations the annotator needs from an ELF file.
use vstd::prelude::*;
use std::collections::HashMap;
use crate::dwarf::{UnitLines, addr_map_units, build_addr_to_src, loc_map_view, unit_views};
use crate::elf::{ElfImage, FunctionInfo, clear_thumb, function_list, function_symbol, function_views, get_function_bounds, goblin_elf, list_functions};
use crate::error::AnnotateError;
use crate::types::SourceLocation;

verus! {

/// What the annotator reads from an ELF file.
pub trait ElfBackend {
    /// The function symbols of the file, sorted by address (see `function_list`).
    fn list_functions(&self, elf_bytes: &[u8]) -> (r: Result<Vec<FunctionInfo>, AnnotateError>)
        ensures
            match goblin_elf(elf_bytes@) {
                None => r matches Err(e) && e is ElfParse,
                Some(e) => r matches Ok(v) && function_views(v@) == function_list(e),
            },
    ;

    /// The address range `[start, end)` of function `func_name`.
    fn get_function_bounds(&self, elf_bytes: &[u8], func_name: &str) -> (r: Result<(u64, u64), AnnotateError>)
        ensures
            match goblin_elf(elf_bytes@) {
                None => r matches Err(e) && e is ElfParse,
                Some(e) => match function_symbol(e, func_name@) {
                    None => r matches Err(x) && x is FunctionNotFound,
                    Some(s) => if clear_thumb(s.value) + s.size <= u64::MAX {
                        r == Ok::<(u64, u64), AnnotateError>((clear_thumb(s.value), (clear_thumb(s.value) + s.size) as u64))
                    } else {
                        r matches Err(x) && x is FunctionRangeOverflow
                    },
                },
            },
    ;

    /// The address-to-source map of the line tables read from the file's DWARF sections
    /// (see `addr_map_units`).
    fn build_addr_to_src(&self, units: &[UnitLines]) -> (r: HashMap<u64, SourceLocation>)
        ensures
            loc_map_view(r@) == addr_map_units(unit_views(units@), units@.len() as int),
    ;
}

/// The ELF backend built on goblin.
pub struct GoblinElfBackend;

impl ElfBackend for GoblinElfBackend {
    fn list_functions(&self, elf_bytes: &[u8]) -> (r: Result<Vec<FunctionInfo>, AnnotateError>) {
        let elf = ElfImage::parse(elf_bytes)?;
        Ok(list_functions(&elf))
    }

    fn get_function_bounds(&self, elf_bytes: &[u8], func_name: &str) -> (r: Result<(u64, u64), AnnotateError>) {
        let elf = ElfImage::parse(elf_bytes)?;
        get_function_bounds(&elf, func_name)
    }

    fn build_addr_to_src(&self, units: &[UnitLines]) -> (r: HashMap<u64, SourceLocation>) {
        build_addr_to_src(units)
    }
}

} // verus!
