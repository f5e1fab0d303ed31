//! Reading the DWARF line tables of an ELF file with `gimli`.
//!
//! `gimli` decodes the units and their line programs; a `DwarfCursor` walks them one unit
//! and one row at a time, and `read_line_tables` collects what it yields into the plain
//! line-table values that `dwarf` works on.
use vstd::prelude::*;
use crate::dwarf::{DwarfLoader, FileRef, LineRowInfo, RowView, UnitLines, UnitView, dir_views, row_views, unit_views};
use crate::elf::{ElfImage, ELFDATA2LSB, goblin_elf, opt_str};
use crate::error::AnnotateError;

verus! {

#[verifier::external_type_specification]
#[verifier::external_body]
pub struct ExGimliError(gimli::Error);

/// The line tables that `gimli` decodes from the DWARF sections of the ELF file `bytes`:
/// the table of every unit that has a line program, in order, with its compilation
/// directory, include directories and rows; `None` where decoding fails.
pub uninterp spec fn dwarf_line_tables(bytes: Seq<u8>) -> Option<Seq<UnitView>>;

/// Where a walk over the units stands.
pub struct CursorView {
    /// What the units after the current one decode to (`None`: decoding them fails).
    pub units: Option<Seq<UnitView>>,
    /// The current unit's compilation directory.
    pub comp_dir: Option<Seq<char>>,
    /// The current unit's include directories.
    pub include_dirs: Seq<Option<Seq<char>>>,
    /// The current unit's file entries by index (directory index and path name), as the
    /// line program header lists them when the unit is reached; rows are looked up in
    /// this copy, not in the entries that the program itself may add while it runs.
    pub files: Map<u64, (u64, Option<Seq<char>>)>,
    /// The current unit's rows still to come (`None`: decoding them fails).
    pub rows: Option<Seq<RowView>>,
    /// A bound on the unit headers still to read (each one takes up bytes of `.debug_info`).
    pub unit_steps: nat,
    /// A bound on the rows still to come (each one takes up bytes of the line program).
    pub row_steps: nat,
}

/// The state of a walk over the units of a file's DWARF data, held by `gimli`.
///
/// Its fields are hidden from Verus: gimli's unit, line program and row types are generic
/// over its `Reader` trait, and Verus refuses to declare types with such bounds. What
/// the walk holds is named by `cursor_view`.
#[verifier::external_body]
pub struct DwarfCursor {
    dwarf: gimli::read::Dwarf<gimli::read::EndianRcSlice<gimli::RunTimeEndian>>,
    units: gimli::read::DebugInfoUnitHeadersIter<gimli::read::EndianRcSlice<gimli::RunTimeEndian>>,
    comp_dir: Option<gimli::read::EndianRcSlice<gimli::RunTimeEndian>>,
    header: Option<gimli::read::LineProgramHeader<gimli::read::EndianRcSlice<gimli::RunTimeEndian>, usize>>,
    rows: Option<
        gimli::read::LineRows<
            gimli::read::EndianRcSlice<gimli::RunTimeEndian>,
            gimli::read::IncompleteLineProgram<gimli::read::EndianRcSlice<gimli::RunTimeEndian>, usize>,
            usize,
        >,
    >,
}

/// What a cursor holds.
pub uninterp spec fn cursor_view(c: DwarfCursor) -> CursorView;

/// The current unit followed by the units after it, when both decode.
pub open spec fn with_current_unit(v: CursorView) -> Option<Seq<UnitView>> {
    match (v.rows, v.units) {
        (Some(rows), Some(units)) => Some(
            seq![UnitView { comp_dir: v.comp_dir, include_dirs: v.include_dirs, rows }] + units,
        ),
        _ => None,
    }
}

/// The file entry of index `index`, when there is one.
pub open spec fn file_entry(files: Map<u64, (u64, Option<Seq<char>>)>, index: u64) -> Option<(u64, Option<Seq<char>>)> {
    if files.contains_key(index) {
        Some(files[index])
    } else {
        None
    }
}

/// `x` followed by `rest`, when `rest` decodes.
pub open spec fn prepend_opt<T>(x: Seq<T>, rest: Option<Seq<T>>) -> Option<Seq<T>> {
    match rest {
        Some(r) => Some(x + r),
        None => None,
    }
}

/// An error of `gimli` as the library's `Dwarf` error, with its message (`Display`).
#[verifier::external_body]
fn dwarf_failure(e: gimli::Error) -> (r: AnnotateError)
    ensures
        r is Dwarf,
{
    AnnotateError::Dwarf { message: e.to_string() }
}

/// Starts a walk over the units (`Dwarf::load` with the file's sections, read in the
/// byte order `little` gives, and `Dwarf::units`).
///
/// Claimed: what the walk yields is `dwarf_line_tables` of the file's bytes, and no unit
/// is current yet.
#[verifier::external_body]
fn open_dwarf(loader: &DwarfLoader, elf: &ElfImage, little: bool) -> (r: DwarfCursor)
    requires
        goblin_elf(loader.bytes()) == Some(elf@),
        little == (elf@.data_encoding == ELFDATA2LSB),
    ensures
        cursor_view(r).units == dwarf_line_tables(loader.bytes()),
        cursor_view(r).rows == Some(Seq::<RowView>::empty()),
{
    let endian = match little {
        true => gimli::RunTimeEndian::Little,
        false => gimli::RunTimeEndian::Big,
    };
    let section = |id: gimli::SectionId| {
        Ok::<_, std::convert::Infallible>(gimli::read::EndianRcSlice::new(std::rc::Rc::from(loader.section_data(elf, id.name())), endian))
    };
    let dwarf = match gimli::read::Dwarf::load(section) {
        Ok(d) => d,
        Err(never) => match never {},
    };
    let units = dwarf.units();
    DwarfCursor { dwarf, units, comp_dir: None, header: None, rows: None }
}

impl DwarfCursor {
    /// Moves to the next unit (`DebugInfoUnitHeadersIter::next`, `Dwarf::unit`), keeping a
    /// copy of its line program header (`LineProgramHeader::clone`).
    ///
    /// Claimed: `Ok(None)` when no unit is left; `Ok(Some(false))` for a unit without a
    /// line program, which adds nothing; `Ok(Some(true))` for one with a line program,
    /// whose directories, file entries and rows become current; an error where decoding fails. The
    /// bound on the units left goes down with each unit read.
    #[verifier::external_body]
    fn next_unit(&mut self) -> (r: Result<Option<bool>, AnnotateError>)
        ensures
            r matches Ok(None) ==> cursor_view(*old(self)).units == Some(Seq::<UnitView>::empty()),
            r matches Ok(Some(has)) ==> cursor_view(*final(self)).unit_steps < cursor_view(*old(self)).unit_steps,
            r matches Ok(Some(false)) ==> cursor_view(*final(self)).units == cursor_view(*old(self)).units,
            r matches Ok(Some(false)) ==> cursor_view(*final(self)).rows == Some(Seq::<RowView>::empty()),
            r matches Ok(Some(true)) ==> cursor_view(*old(self)).units == with_current_unit(cursor_view(*final(self))),
            r matches Err(e) ==> e is Dwarf && cursor_view(*old(self)).units is None,
    {
        let header = match self.units.next() {
            Ok(Some(h)) => h,
            Ok(None) => return Ok(None),
            Err(e) => return Err(dwarf_failure(e)),
        };
        let unit = match self.dwarf.unit(header) {
            Ok(u) => u,
            Err(e) => return Err(dwarf_failure(e)),
        };
        self.comp_dir = unit.comp_dir;
        self.header = unit.line_program.as_ref().map(|p| p.header().clone());
        self.rows = unit.line_program.map(|p| p.rows());
        Ok(Some(self.rows.is_some()))
    }

    /// The current unit's compilation directory (`DW_AT_comp_dir`, decoded as
    /// `String::from_utf8_lossy` does).
    #[verifier::external_body]
    fn unit_comp_dir(&self) -> (r: Option<String>)
        ensures
            opt_str(r) == cursor_view(*self).comp_dir,
    {
        self.comp_dir.as_ref().map(|d| String::from_utf8_lossy(d).into_owned())
    }

    /// The current unit's include directories (`LineProgramHeader::include_directories` of
    /// the copy of its header): the text of each one given as a string, `None` for the
    /// others.
    #[verifier::external_body]
    fn unit_include_dirs(&self) -> (r: Vec<Option<String>>)
        ensures
            dir_views(r@) == cursor_view(*self).include_dirs,
    {
        let dirs = match &self.header {
            Some(header) => header.include_directories(),
            None => &[],
        };
        dirs.iter().map(|d| match d {
            gimli::AttributeValue::String(s) => Some(String::from_utf8_lossy(s).into_owned()),
            _ => None,
        }).collect()
    }

    /// The file entry of index `index` in the copy of the current unit's line program
    /// header (`LineProgramHeader::file`), its path name decoded as `String::from_utf8_lossy`
    /// does when it is given as a string.
    #[verifier::external_body]
    fn row_file(&self, index: u64) -> (r: Option<FileRef>)
        ensures
            file_entry(cursor_view(*self).files, index) == (match r {
                Some(f) => Some((f.directory_index, opt_str(f.path_name))),
                None => None,
            }),
    {
        let header = match &self.header {
            Some(header) => header,
            None => return None,
        };
        header.file(index).map(|f| FileRef {
            directory_index: f.directory_index(),
            path_name: match f.path_name() {
                gimli::AttributeValue::String(s) => Some(String::from_utf8_lossy(&s).into_owned()),
                _ => None,
            },
        })
    }

    /// The next row of the current unit (`LineRows::next_row`): its address, end of
    /// sequence flag, line and file index.
    ///
    /// Claimed: `Ok(None)` when no row is left; otherwise the first of the rows still to
    /// come (its file entry looked up by index in the copy of the header), or an error
    /// where decoding them fails. The program may add file entries to the header it runs
    /// with, but not to the copy: everything but the rows still to come stays as it was,
    /// and their bound goes down.
    #[verifier::external_body]
    fn next_row(&mut self) -> (r: Result<Option<(u64, bool, Option<u64>, u64)>, AnnotateError>)
        ensures
            cursor_view(*final(self)).units == cursor_view(*old(self)).units,
            cursor_view(*final(self)).unit_steps == cursor_view(*old(self)).unit_steps,
            cursor_view(*final(self)).files == cursor_view(*old(self)).files,
            r matches Ok(None) ==> cursor_view(*old(self)).rows == Some(Seq::<RowView>::empty()),
            r matches Ok(Some(x)) ==> cursor_view(*old(self)).rows == prepend_opt(
                seq![RowView { address: x.0, end_sequence: x.1, line: x.2, file: file_entry(cursor_view(*old(self)).files, x.3) }],
                cursor_view(*final(self)).rows,
            ),
            r matches Ok(Some(x)) ==> cursor_view(*final(self)).row_steps < cursor_view(*old(self)).row_steps,
            r matches Err(e) ==> e is Dwarf && cursor_view(*old(self)).rows is None,
    {
        let rows = match &mut self.rows {
            Some(rows) => rows,
            None => return Ok(None),
        };
        match rows.next_row() {
            Ok(Some((_, row))) => Ok(Some((row.address(), row.end_sequence(), row.line().map(|l| l.get()), row.file_index()))),
            Ok(None) => Ok(None),
            Err(e) => Err(dwarf_failure(e)),
        }
    }
}

/// Reads the line tables of the ELF file `bytes`: `ElfParse` when it does not parse, a
/// `Dwarf` error where `gimli` fails to decode them, else `dwarf_line_tables` of the bytes.
pub fn read_line_tables(bytes: &[u8]) -> (r: Result<Vec<UnitLines>, AnnotateError>)
    ensures
        goblin_elf(bytes@) is None ==> (r matches Err(e) && e is ElfParse),
        goblin_elf(bytes@) is Some ==> (r is Ok <==> dwarf_line_tables(bytes@) is Some),
        goblin_elf(bytes@) is Some ==> (r matches Err(e) ==> e is Dwarf),
        r matches Ok(v) ==> dwarf_line_tables(bytes@) == Some(unit_views(v@)),
{
    let elf = ElfImage::parse(bytes)?;
    let loader = DwarfLoader::new(vstd::slice::slice_to_vec(bytes));
    let little = DwarfLoader::is_little_endian(&elf);
    let mut cursor = open_dwarf(&loader, &elf, little);
    let mut units: Vec<UnitLines> = Vec::new();
    loop
        invariant
            goblin_elf(bytes@) is Some,
            dwarf_line_tables(bytes@) == prepend_opt(unit_views(units@), cursor_view(cursor).units),
        decreases cursor_view(cursor).unit_steps,
    {
        let ghost pre = cursor_view(cursor);
        let has_program = match cursor.next_unit() {
            Ok(Some(has)) => has,
            Ok(None) => {
                assert(pre.units == Some(Seq::<UnitView>::empty()));
                assert(unit_views(units@) + Seq::<UnitView>::empty() =~= unit_views(units@));
                return Ok(units);
            },
            Err(e) => return Err(e),
        };
        if has_program {
            let ghost start = cursor_view(cursor);
            let comp_dir = cursor.unit_comp_dir();
            let include_dirs = cursor.unit_include_dirs();
            let mut rows: Vec<LineRowInfo> = Vec::new();
            loop
                invariant_except_break
                    start.rows == prepend_opt(row_views(rows@), cursor_view(cursor).rows),
                invariant
                    goblin_elf(bytes@) is Some,
                    dwarf_line_tables(bytes@) == prepend_opt(unit_views(units@), with_current_unit(start)),
                    cursor_view(cursor).units == start.units,
                    cursor_view(cursor).unit_steps == start.unit_steps,
                ensures
                    cursor_view(cursor).units == start.units,
                    cursor_view(cursor).unit_steps == start.unit_steps,
                    start.rows == Some(row_views(rows@)),
                decreases cursor_view(cursor).row_steps,
            {
                let ghost pre_row = cursor_view(cursor);
                match cursor.next_row() {
                    Ok(Some((address, end_sequence, line, file_index))) => {
                        let file = cursor.row_file(file_index);
                        let row = LineRowInfo { address, end_sequence, line, file };
                        let ghost before = row_views(rows@);
                        let ghost rv = row@;
                        rows.push(row);
                        assert(row_views(rows@) =~= before.push(rv));
                        assert(before + seq![rv] =~= before.push(rv));
                        proof {
                            match cursor_view(cursor).rows {
                                Some(t) => {
                                    assert(before + (seq![rv] + t) =~= before.push(rv) + t);
                                },
                                None => {},
                            }
                        }
                    },
                    Ok(None) => {
                        assert(pre_row.rows == Some(Seq::<RowView>::empty()));
                        assert(row_views(rows@) + Seq::<RowView>::empty() =~= row_views(rows@));
                        break;
                    },
                    Err(e) => return Err(e),
                }
            }
            let unit = UnitLines { comp_dir, include_dirs, rows };
            let ghost before = unit_views(units@);
            let ghost uv = unit@;
            units.push(unit);
            assert(unit_views(units@) =~= before.push(uv));
            proof {
                match cursor_view(cursor).units {
                    Some(t) => {
                        assert(before + (seq![uv] + t) =~= before.push(uv) + t);
                    },
                    None => {},
                }
            }
        }
    }
}

} // verus!
