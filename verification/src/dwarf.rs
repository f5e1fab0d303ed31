//! Source locations from DWARF line tables.
//!
//! The line table rows arrive as plain values (decoded with `gimli` in `dwarf_read`); this
//! module decides which rows give a location, what path a row names, and builds the
//! address-to-source map.
use vstd::prelude::*;
use std::collections::HashMap;
use crate::types::SourceLocation;
use crate::elf::{ElfImage, ElfView, SectionView, ELFDATA2LSB, opt_str};
use crate::paths::{push_path, push_path_exec};
use crate::text::{chars_of, string_of, str_eq};

verus! {

broadcast use vstd::std_specs::hash::group_hash_axioms;

/// The file entry a line table row refers to.
#[derive(Debug, Clone)]
pub struct FileRef {
    /// The entry's directory index.
    pub directory_index: u64,
    /// The entry's path name, when it is a string.
    pub path_name: Option<String>,
}

/// One row of a line table.
#[derive(Debug, Clone)]
pub struct LineRowInfo {
    pub address: u64,
    pub end_sequence: bool,
    /// The line number; `None` for line 0.
    pub line: Option<u64>,
    /// The row's file entry, when the header has one for its index.
    pub file: Option<FileRef>,
}

/// The line table of one compilation unit.
#[derive(Debug, Clone)]
pub struct UnitLines {
    /// `DW_AT_comp_dir`, when present.
    pub comp_dir: Option<String>,
    /// The header's include directories; `None` for an entry that is not a string.
    pub include_dirs: Vec<Option<String>>,
    /// The rows, in order.
    pub rows: Vec<LineRowInfo>,
}

/// What a row holds.
pub struct RowView {
    pub address: u64,
    pub end_sequence: bool,
    pub line: Option<u64>,
    pub file: Option<(u64, Option<Seq<char>>)>,
}

/// What a unit's line table holds.
pub struct UnitView {
    pub comp_dir: Option<Seq<char>>,
    pub include_dirs: Seq<Option<Seq<char>>>,
    pub rows: Seq<RowView>,
}

impl View for LineRowInfo {
    type V = RowView;

    open spec fn view(&self) -> RowView {
        RowView {
            address: self.address,
            end_sequence: self.end_sequence,
            line: self.line,
            file: match self.file {
                Some(f) => Some((f.directory_index, opt_str(f.path_name))),
                None => None,
            },
        }
    }
}

/// The include directories as views.
pub open spec fn dir_views(v: Seq<Option<String>>) -> Seq<Option<Seq<char>>> {
    v.map_values(|d: Option<String>| opt_str(d))
}

/// The rows as views.
pub open spec fn row_views(v: Seq<LineRowInfo>) -> Seq<RowView> {
    v.map_values(|r: LineRowInfo| r@)
}

impl View for UnitLines {
    type V = UnitView;

    open spec fn view(&self) -> UnitView {
        UnitView { comp_dir: opt_str(self.comp_dir), include_dirs: dir_views(self.include_dirs@), rows: row_views(self.rows@) }
    }
}

/// The units as views.
pub open spec fn unit_views(v: Seq<UnitLines>) -> Seq<UnitView> {
    v.map_values(|u: UnitLines| u@)
}

/// The file path a row names: the include directory (for a non-zero directory index,
/// relative ones joined onto the compilation directory) or else the compilation directory,
/// with the file's path name pushed on.
pub open spec fn row_path(u: UnitView, dir_index: u64, path_name: Option<Seq<char>>) -> Seq<char> {
    let base = match u.comp_dir {
        Some(d) => d,
        None => seq![],
    };
    let dir: Seq<char> = if dir_index != 0 {
        if dir_index - 1 < u.include_dirs.len() && u.include_dirs[dir_index - 1] is Some {
            let d = u.include_dirs[dir_index - 1]->0;
            if d.len() > 0 && d[0] == '/' {
                push_path(seq![], d)
            } else {
                push_path(base, d)
            }
        } else {
            seq![]
        }
    } else {
        push_path(seq![], base)
    };
    match path_name {
        Some(n) => push_path(dir, n),
        None => dir,
    }
}

/// The source location of a row: its line and file path, when it has a line (line 0
/// stands for none), a file entry and a non-empty path.
pub open spec fn row_location(u: UnitView, r: RowView) -> Option<(Seq<char>, usize)> {
    match r.line {
        None => None,
        Some(line) => if line == 0 {
            None
        } else {
            match r.file {
                None => None,
                Some(f) => {
                    let p = row_path(u, f.0, f.1);
                    if p.len() == 0 {
                        None
                    } else {
                        Some((p, line as usize))
                    }
                },
            }
        },
    }
}

/// A row whose file entry names include directory `d` (directory index `k`, entry `k - 1`)
/// is located in that directory: at `d/name` when `d` is absolute, at `comp_dir/d/name`
/// when it is relative (for a path name that is relative and a directory and compilation
/// directory that do not end in `/`).
pub proof fn lemma_row_in_include_dir(u: UnitView, r: RowView, d: Seq<char>, name: Seq<char>)
    requires
        r.line matches Some(l) && l != 0,
        r.file matches Some(f) && f.0 != 0 && f.1 == Some(name) && f.0 - 1 < u.include_dirs.len()
            && u.include_dirs[f.0 - 1] == Some(d),
        name.len() > 0 && name[0] != '/',
        d.len() > 0 && d.last() != '/',
    ensures
        d[0] == '/' ==> row_location(u, r) == Some((d + seq!['/'] + name, r.line->0 as usize)),
        (d[0] != '/' && u.comp_dir is Some && u.comp_dir->0.len() > 0 && u.comp_dir->0.last() != '/') ==> row_location(u, r)
            == Some((u.comp_dir->0 + seq!['/'] + d + seq!['/'] + name, r.line->0 as usize)),
{
    let k = r.file->0;
    let index = k.0;
    if d[0] == '/' {
        assert(row_path(u, index, Some(name)) =~= d + seq!['/'] + name);
    } else if u.comp_dir is Some {
        let c = u.comp_dir->0;
        if c.len() > 0 && c.last() != '/' {
            let cd = c + seq!['/'] + d;
            assert(cd.last() == d.last());
            assert(row_path(u, index, Some(name)) =~= c + seq!['/'] + d + seq!['/'] + name);
        }
    }
}

/// A row whose file entry has directory index 0 is located in the compilation directory:
/// at `comp_dir/name` (for a relative path name and a compilation directory that does
/// not end in `/`), or at `name` alone when there is no compilation directory.
pub proof fn lemma_row_in_comp_dir(u: UnitView, r: RowView, name: Seq<char>)
    requires
        r.line matches Some(l) && l != 0,
        r.file == Some((0u64, Some(name))),
        name.len() > 0 && name[0] != '/',
    ensures
        (u.comp_dir is Some && u.comp_dir->0.len() > 0 && u.comp_dir->0.last() != '/') ==> row_location(u, r)
            == Some((u.comp_dir->0 + seq!['/'] + name, r.line->0 as usize)),
        u.comp_dir is None ==> row_location(u, r) == Some((name, r.line->0 as usize)),
{
    if u.comp_dir is Some {
        let c = u.comp_dir->0;
        if c.len() > 0 && c.last() != '/' {
            assert(push_path(seq![], c) =~= c);
            assert(row_path(u, 0, Some(name)) =~= c + seq!['/'] + name);
        }
    } else {
        assert(push_path(seq![], seq![]) =~= Seq::<char>::empty());
        assert(row_path(u, 0, Some(name)) =~= name);
    }
}

/// Computes the source location of a row (see `row_location`).
pub fn source_location(unit: &UnitLines, row: &LineRowInfo) -> (r: Option<SourceLocation>)
    ensures
        match r {
            Some(l) => row_location(unit@, row@) == Some(l@),
            None => row_location(unit@, row@) is None,
        },
{
    let line = match row.line {
        Some(l) => l,
        None => return None,
    };
    if line == 0 {
        return None;
    }
    let file = match &row.file {
        Some(f) => f,
        None => return None,
    };
    let base: Vec<char> = match &unit.comp_dir {
        Some(d) => chars_of(d.as_str()),
        None => Vec::new(),
    };
    let mut path: Vec<char> = Vec::new();
    if file.directory_index != 0 {
        let i = file.directory_index - 1;
        if i < unit.include_dirs.len() as u64 {
            let iu = i as usize;
            assert(dir_views(unit.include_dirs@)[iu as int] == opt_str(unit.include_dirs@[iu as int]));
            match &unit.include_dirs[iu] {
                Some(d) => {
                    let dv = chars_of(d.as_str());
                    if dv.len() > 0 && dv[0] == '/' {
                        push_path_exec(&mut path, dv.as_slice());
                    } else {
                        path = vstd::slice::slice_to_vec(base.as_slice());
                        push_path_exec(&mut path, dv.as_slice());
                    }
                },
                None => {},
            }
        }
    } else {
        push_path_exec(&mut path, base.as_slice());
    }
    match &file.path_name {
        Some(n) => {
            let nv = chars_of(n.as_str());
            push_path_exec(&mut path, nv.as_slice());
        },
        None => {},
    }
    if path.len() == 0 {
        return None;
    }
    Some(SourceLocation { file: string_of(path.as_slice()), line: line as usize })
}

/// The address-to-source map after the rows of the first `n` units, each unit's rows in
/// order, a later row's location replacing an earlier one at the same address. End of
/// sequence rows and rows without a location are skipped.
pub open spec fn addr_map_units(units: Seq<UnitView>, n: int) -> Map<u64, (Seq<char>, usize)>
    decreases n,
{
    if n <= 0 {
        Map::empty()
    } else {
        addr_map_rows(units[n - 1], addr_map_units(units, n - 1), units[n - 1].rows.len() as int)
    }
}

/// `m` after the first `k` rows of `u`.
pub open spec fn addr_map_rows(u: UnitView, m: Map<u64, (Seq<char>, usize)>, k: int) -> Map<u64, (Seq<char>, usize)>
    decreases k,
{
    if k <= 0 {
        m
    } else {
        let p = addr_map_rows(u, m, k - 1);
        let r = u.rows[k - 1];
        if r.end_sequence {
            p
        } else {
            match row_location(u, r) {
                Some(l) => p.insert(r.address, l),
                None => p,
            }
        }
    }
}

/// The locations of a map, as views.
pub open spec fn loc_map_view(m: Map<u64, SourceLocation>) -> Map<u64, (Seq<char>, usize)> {
    m.map_values(|l: SourceLocation| l@)
}

/// Builds the address-to-source map from the line tables of all units
/// (see `addr_map_units`).
pub fn build_addr_to_src(units: &[UnitLines]) -> (r: HashMap<u64, SourceLocation>)
    ensures
        loc_map_view(r@) == addr_map_units(unit_views(units@), units@.len() as int),
{
    let ghost uv = unit_views(units@);
    let mut mapping: HashMap<u64, SourceLocation> = HashMap::new();
    let mut i: usize = 0;
    assert(loc_map_view(mapping@) =~= Map::<u64, (Seq<char>, usize)>::empty());
    while i < units.len()
        invariant
            i <= units@.len(),
            uv == unit_views(units@),
            loc_map_view(mapping@) == addr_map_units(uv, i as int),
        decreases units@.len() - i,
    {
        let unit = &units[i];
        assert(uv[i as int] == unit@);
        let ghost m0 = loc_map_view(mapping@);
        let mut j: usize = 0;
        while j < unit.rows.len()
            invariant
                j <= unit.rows@.len(),
                loc_map_view(mapping@) == addr_map_rows(unit@, m0, j as int),
            decreases unit.rows@.len() - j,
        {
            let row = &unit.rows[j];
            assert(unit@.rows[j as int] == row@);
            if !row.end_sequence {
                match source_location(unit, row) {
                    Some(loc) => {
                        let ghost mm = mapping@;
                        let ghost lv = loc@;
                        mapping.insert(row.address, loc);
                        assert(loc_map_view(mapping@) =~= loc_map_view(mm).insert(row.address, lv));
                    },
                    None => {},
                }
            }
            j = j + 1;
        }
        i = i + 1;
    }
    mapping
}

/// The bytes of the section named `name`: empty when there is none or its bytes lie past
/// the end of the file.
pub open spec fn section_bytes_spec(e: ElfView, bytes: Seq<u8>, name: Seq<char>) -> Seq<u8> {
    if exists|i: int| 0 <= i < e.sections.len() && e.sections[i].name == Some(name) {
        let i = choose|i: int| 0 <= i < e.sections.len() && e.sections[i].name == Some(name) && forall|k: int| 0 <= k < i ==> #[trigger] e.sections[k].name != Some(name);
        let s = e.sections[i];
        if s.offset + s.size <= bytes.len() {
            bytes.subrange(s.offset as int, s.offset + s.size)
        } else {
            seq![]
        }
    } else {
        seq![]
    }
}

/// Holds the ELF bytes that DWARF sections are read from.
#[derive(Debug, Default)]
pub struct DwarfLoader {
    buffer: Vec<u8>,
}

impl DwarfLoader {
    /// The loaded bytes.
    pub closed spec fn bytes(&self) -> Seq<u8> {
        self.buffer@
    }

    /// A loader over `buffer`.
    pub fn new(buffer: Vec<u8>) -> (r: DwarfLoader)
        ensures
            r.bytes() == buffer@,
    {
        DwarfLoader { buffer }
    }

    /// The loaded bytes.
    pub fn buffer(&self) -> (r: &[u8])
        ensures
            r@ == self.bytes(),
    {
        self.buffer.as_slice()
    }

    /// Whether the file's data is little-endian (`e_ident[EI_DATA]` is `ELFDATA2LSB`).
    pub fn is_little_endian(elf: &ElfImage) -> (r: bool)
        ensures
            r == (elf.data_encoding == ELFDATA2LSB),
    {
        elf.data_encoding == ELFDATA2LSB
    }

    /// The bytes of the first section named `name` (see `section_bytes_spec`).
    pub fn section_data(&self, elf: &ElfImage, name: &str) -> (r: &[u8])
        ensures
            r@ == section_bytes_spec(elf@, self.bytes(), name@),
    {
        let ghost secs = elf@.sections;
        let mut i: usize = 0;
        while i < elf.sections.len()
            invariant
                i <= elf.sections.len(),
                secs == elf@.sections,
                forall|k: int| 0 <= k < i ==> #[trigger] secs[k].name != Some(name@),
            decreases elf.sections.len() - i,
        {
            let s = &elf.sections[i];
            assert(secs[i as int] == s@);
            let hit = match &s.name {
                Some(n) => str_eq(n.as_str(), name),
                None => false,
            };
            if hit {
                proof {
                    let c = choose|c: int| 0 <= c < secs.len() && secs[c].name == Some(name@) && forall|k: int| 0 <= k < c ==> #[trigger] secs[k].name != Some(name@);
                    assert(c == i) by {
                        if c > i {
                            assert(secs[i as int].name != Some(name@));
                        }
                    }
                }
                if s.offset <= self.buffer.len() as u64 && s.size <= self.buffer.len() as u64 - s.offset {
                    let off = s.offset as usize;
                    let end = off + s.size as usize;
                    return vstd::slice::slice_subrange(self.buffer.as_slice(), off, end);
                }
                return &[];
            }
            i = i + 1;
        }
        &[]
    }
}

} // verus!
