//! Loading everything needed to annotate one function.
use vstd::prelude::*;
use crate::cli::Cli;
use crate::error::AnnotateError;
use crate::types::{AnnotatedInstruction, DisplayItem, Instruction, SourceLocation, inherited_source, item_color, opt_loc_view};
use crate::source_reader::{SourceReader, remap_spec};
use crate::elf::{ElfImage, ElfView, FunctionInfo, FunctionView, function_views, get_function_bounds, function_symbol, goblin_elf, clear_thumb};
use crate::demangle::{CppDemangleBackend, DemanglerBackend, itanium_demangled, apply_demangling, extract_mangled_symbols, batch_spec, mangled_symbols, demangle_text, name_views};
use crate::disasm::{disassemble_range, arch_spec, function_code, capstone_result, capstone_opens, instruction_of, instruction_views, CapstoneArch, RawInsnView};
use crate::dwarf_read::{dwarf_line_tables, read_line_tables};
use crate::dwarf::{UnitLines, build_addr_to_src, addr_map_units, unit_views, loc_map_view};
use crate::text::{occurs_at, chars_of, chars_contain, contains_seq, copy_string, owned, string_of, string_views};
use crate::order::{sorted_by, chars_order, insert_chars_sorted, lemma_chars_order_strict_total, lemma_sorted_unique};
use crate::paths::views;

verus! {

/// Everything needed to display an annotated function.
pub struct AnnotationData {
    /// The instructions to display, with source and color.
    pub display_items: Vec<DisplayItem>,
    /// The reader for source file contents.
    pub source_reader: SourceReader,
    /// The display name of the function (demangled when possible).
    pub display_name: String,
}

/// The function to annotate, or the candidates to choose from.
#[derive(Debug)]
pub enum FunctionChoice {
    /// Exactly one function matched the requested name.
    Selected(FunctionInfo),
    /// The user must pick one of these.
    Pick(Vec<FunctionInfo>),
}

/// The functions whose names contain `name`, in order.
pub open spec fn matching_functions(fs: Seq<FunctionView>, name: Seq<char>) -> Seq<FunctionView>
    decreases fs.len(),
{
    if fs.len() == 0 {
        seq![]
    } else {
        let p = matching_functions(fs.drop_last(), name);
        if contains_seq(fs.last().name, name) {
            p.push(fs.last())
        } else {
            p
        }
    }
}

/// `name` occurs in `s` at some position.
pub open spec fn has_substring(s: Seq<char>, name: Seq<char>) -> bool {
    exists|i: int| 0 <= i && i + name.len() <= s.len() && #[trigger] s.subrange(i, i + name.len()) == name
}

/// The candidates for a name are exactly the functions whose names contain it anywhere
/// (not only at the start), kept in their order.
pub proof fn lemma_matching_contains(fs: Seq<FunctionView>, name: Seq<char>)
    ensures
        matching_functions(fs, name) == fs.filter(|f: FunctionView| has_substring(f.name, name)),
    decreases fs.len(),
{
    reveal_with_fuel(Seq::filter, 1);
    if fs.len() > 0 {
        lemma_matching_contains(fs.drop_last(), name);
        let f = fs.last();
        assert(contains_seq(f.name, name) == has_substring(f.name, name)) by {
            if contains_seq(f.name, name) {
                let i = choose|i: int| occurs_at(f.name, name, i);
                assert(0 <= i && i + name.len() <= f.name.len() && f.name.subrange(i, i + name.len()) == name);
            }
            if has_substring(f.name, name) {
                let i = choose|i: int| 0 <= i && i + name.len() <= f.name.len() && #[trigger] f.name.subrange(i, i + name.len()) == name;
                assert(occurs_at(f.name, name, i));
            }
        }
    }
}

/// Decides which function to annotate.
///
/// Fails with `NoFunctions` for an empty list. Without a name every function is a
/// candidate; with one, those whose names contain it. No candidate fails with
/// `NoMatchingFunction`; a single candidate for a given name is selected; otherwise the
/// user picks.
pub fn choose_function(functions: Vec<FunctionInfo>, function_name: &str) -> (r: Result<FunctionChoice, AnnotateError>)
    ensures
        functions.len() == 0 ==> (r matches Err(e) && e is NoFunctions),
        functions.len() > 0 ==> {
            let m = if function_name@.len() == 0 {
                function_views(functions@)
            } else {
                matching_functions(function_views(functions@), function_name@)
            };
            &&& m.len() == 0 ==> (r matches Err(e) && e is NoMatchingFunction)
            &&& m.len() == 1 && function_name@.len() > 0 ==> (r matches Ok(FunctionChoice::Selected(f)) && f@ == m[0])
            &&& m.len() > 1 || (m.len() == 1 && function_name@.len() == 0) ==> (r matches Ok(FunctionChoice::Pick(v)) && function_views(v@) == m)
        },
{
    if functions.len() == 0 {
        return Err(AnnotateError::NoFunctions);
    }
    let name = chars_of(function_name);
    let ghost fv = function_views(functions@);
    let mut matched: Vec<FunctionInfo> = Vec::new();
    if name.len() == 0 {
        matched = functions;
    } else {
        let mut i: usize = 0;
        assert(fv.take(0) =~= Seq::<FunctionView>::empty());
        while i < functions.len()
            invariant
                i <= functions.len(),
                fv == function_views(functions@),
                name@ == function_name@,
                function_views(matched@) == matching_functions(fv.take(i as int), name@),
            decreases functions.len() - i,
        {
            assert(fv.take(i as int + 1).drop_last() == fv.take(i as int));
            assert(fv.take(i as int + 1).last() == functions[i as int]@);
            let n = chars_of(functions[i].name.as_str());
            if chars_contain(n.as_slice(), name.as_slice()) {
                let f = FunctionInfo { name: copy_string(&functions[i].name), addr: functions[i].addr, size: functions[i].size };
                let ghost m0 = matched@;
                matched.push(f);
                assert(function_views(matched@) =~= function_views(m0).push(f@));
            }
            i = i + 1;
        }
        assert(fv.take(functions.len() as int) == fv);
    }
    if matched.len() == 0 {
        return Err(AnnotateError::NoMatchingFunction { name: owned(function_name) });
    }
    if matched.len() == 1 && name.len() > 0 {
        let f = matched.pop().unwrap();
        assert(f@ == function_views(matched@.push(f))[0]);
        return Ok(FunctionChoice::Selected(f));
    }
    Ok(FunctionChoice::Pick(matched))
}

/// The name shown for a function: demangled when allowed and possible, else as is.
pub open spec fn display_name_spec(no_demangle: bool, name: Seq<char>) -> Seq<char> {
    if !no_demangle && itanium_demangled(name) is Some {
        itanium_demangled(name)->0
    } else {
        name
    }
}

/// The name shown for a function (see `display_name_spec`).
pub fn display_name(no_demangle: bool, func_name: &str) -> (r: String)
    ensures
        r@ == display_name_spec(no_demangle, func_name@),
{
    if !no_demangle {
        let backend = CppDemangleBackend;
        match backend.demangle(func_name) {
            Ok(d) => d,
            Err(_) => owned(func_name),
        }
    } else {
        owned(func_name)
    }
}

/// The instructions, as views, that disassembling `[start, end)` of the file gives.
pub open spec fn listing_of(e: ElfView, bytes: Seq<u8>, start: u64, end: u64) -> Seq<(u64, Seq<char>, Seq<char>)> {
    capstone_result(arch_spec(e, start)->0, function_code(e, bytes, start, end)->0, start)->0.map_values(
        |raw: RawInsnView| instruction_of(raw, e),
    )
}

/// The demangling entries applied to a disassembly: none when demangling is off.
pub open spec fn demangle_entries(no_demangle: bool, insts: Seq<Instruction>) -> Seq<(Seq<char>, Seq<char>)> {
    if no_demangle {
        seq![]
    } else {
        batch_spec(mangled_symbols(insts))
    }
}

/// The source location of instruction `i` under the address map `m`: that of the nearest
/// instruction at or before `i` whose address is mapped, or none.
pub open spec fn inherited_view(insts: Seq<Instruction>, m: Map<u64, (Seq<char>, usize)>, i: int) -> Option<(Seq<char>, usize)>
    decreases i + 1,
{
    if i < 0 {
        None
    } else if m.contains_key(insts[i].address) {
        Some(m[insts[i].address])
    } else {
        inherited_view(insts, m, i - 1)
    }
}

/// Display items without their colors.
pub open spec fn annotated_of(items: Seq<DisplayItem>) -> Seq<AnnotatedInstruction> {
    items.map_values(|d: DisplayItem| AnnotatedInstruction { instruction: d.instruction, source: d.source })
}

/// `items` display `insts`: one item per instruction, with its mnemonic demangled by
/// `entries`, its source location inherited through the address map `m`, and its color
/// given by the order in which the locations first appear.
pub open spec fn items_match(
    items: Seq<DisplayItem>,
    insts: Seq<Instruction>,
    entries: Seq<(Seq<char>, Seq<char>)>,
    m: Map<u64, (Seq<char>, usize)>,
) -> bool {
    &&& items.len() == insts.len()
    &&& forall|i: int|
        0 <= i < items.len() ==> {
            &&& (#[trigger] items[i]).instruction.address == insts[i].address
            &&& items[i].instruction.bytes == insts[i].bytes
            &&& items[i].instruction.mnemonic@ == demangle_text(insts[i].mnemonic@, entries)
            &&& opt_loc_view(items[i].source) == inherited_view(insts, m, i)
            &&& items[i].color == item_color(annotated_of(items), i)
        }
}

proof fn lemma_inherited_view(a: Seq<Instruction>, b: Seq<Instruction>, m: Map<u64, SourceLocation>, i: int)
    requires
        a.len() == b.len(),
        i < a.len(),
        forall|k: int| 0 <= k < a.len() ==> (#[trigger] a[k]).address == b[k].address,
    ensures
        opt_loc_view(inherited_source(a, m, i)) == inherited_view(b, loc_map_view(m), i),
    decreases i + 1,
{
    if i >= 0 {
        assert(a[i].address == b[i].address);
        if !m.contains_key(a[i].address) {
            lemma_inherited_view(a, b, m, i - 1);
        }
    }
}

/// Loads everything needed to annotate `func_name` from the ELF file's bytes and the
/// outcome of reading the line tables of its DWARF sections.
///
/// In order: the remap arguments must pair up (`InvalidRemap`); the ELF bytes must parse
/// (`ElfParse`) and name the function (`FunctionNotFound`, `FunctionRangeOverflow`); the
/// line tables must have been read (their error is passed on); the range must
/// disassemble (see `disassemble_range`). When all of these hold the annotation loads.
/// Unless demangling is off, mangled names in the instructions are replaced by their
/// demangled forms. The instructions then get their source locations and colors.
pub fn annotation_from_tables(args: &Cli, elf_bytes: &[u8], dwarf: &Result<Vec<UnitLines>, AnnotateError>, func_name: &str) -> (r: Result<AnnotationData, AnnotateError>)
    ensures
        args.remap.len() % 2 == 1 ==> (r matches Err(e) && e is InvalidRemap),
        (args.remap.len() % 2 == 0 && goblin_elf(elf_bytes@) is None) ==> (r matches Err(e) && e is ElfParse),
        args.remap.len() % 2 == 0 ==> (goblin_elf(elf_bytes@) matches Some(e) ==> (function_symbol(e, func_name@) is None ==> (r matches Err(x) && x is FunctionNotFound))),
        args.remap.len() % 2 == 0 ==> (goblin_elf(elf_bytes@) matches Some(e) ==> (function_symbol(e, func_name@) matches Some(s) ==> (clear_thumb(s.value) + s.size > u64::MAX ==> (r matches Err(x) && x is FunctionRangeOverflow)))),
        args.remap.len() % 2 == 0 ==> (goblin_elf(elf_bytes@) matches Some(e) ==> (function_symbol(e, func_name@) matches Some(s) ==> (clear_thumb(s.value) + s.size <= u64::MAX ==> {
            let start = clear_thumb(s.value);
            let end = (clear_thumb(s.value) + s.size) as u64;
            &&& (*dwarf matches Err(x) ==> r == Err::<AnnotationData, AnnotateError>(x))
            &&& (dwarf is Ok && arch_spec(e, start) is None) ==> (r matches Err(x) && x is UnsupportedArchitecture)
            &&& (dwarf is Ok && arch_spec(e, start) == Some(CapstoneArch::X86_64)) ==> (r matches Err(x) && x is CapstoneInit)
            &&& (dwarf is Ok && arch_spec(e, start) is Some && function_code(e, elf_bytes@, start, end) is None) ==> r is Err
            &&& dwarf is Ok ==> (arch_spec(e, start) matches Some(a) ==> (!capstone_opens(a) ==> (r matches Err(x) && x is CapstoneInit)))
            &&& dwarf is Ok ==> (arch_spec(e, start) matches Some(a) ==> (capstone_opens(a) ==> (function_code(e, elf_bytes@, start, end) matches Some(code) ==> {
                &&& capstone_result(a, code, start) is None ==> (r matches Err(x) && x is Disassembly)
                &&& capstone_result(a, code, start) is Some ==> r is Ok
            })))
            &&& *dwarf matches Ok(units) ==> (r matches Ok(data) ==> exists|insts: Seq<Instruction>|
                instruction_views(insts) == listing_of(e, elf_bytes@, start, end) && #[trigger] items_match(
                    data.display_items@,
                    insts,
                    demangle_entries(args.no_demangle, insts),
                    addr_map_units(unit_views(units@), units@.len() as int),
                ))
        }))),
        r matches Ok(data) ==> {
            &&& data.display_name@ == display_name_spec(args.no_demangle, func_name@)
            &&& data.source_reader.sources().len() == 0
            &&& data.source_reader.remaps().len() == args.remap.len() / 2
            &&& forall|k: int| 0 <= k < args.remap.len() / 2 ==> #[trigger] data.source_reader.remaps()[k] == (args.remap[2 * k]@, args.remap[2 * k + 1]@)
        },
{
    let source_reader = SourceReader::new(args.remap.as_slice())?;
    let name = display_name(args.no_demangle, func_name);
    let elf = ElfImage::parse(elf_bytes)?;
    let (start_addr, end_addr) = get_function_bounds(&elf, func_name)?;
    let units = match dwarf {
        Ok(u) => u,
        Err(e) => return Err(e.duplicate()),
    };
    let addr_to_src = build_addr_to_src(units.as_slice());
    let mut instructions = disassemble_range(elf_bytes, start_addr, end_addr)?;
    let ghost raw_insts = instructions@;
    proof {
        let e = goblin_elf(elf_bytes@)->0;
        let sym = function_symbol(e, func_name@)->0;
        assert(start_addr == clear_thumb(sym.value));
        assert(end_addr == (clear_thumb(sym.value) + sym.size) as u64);
        assert(*dwarf == Ok::<Vec<UnitLines>, AnnotateError>(*units));
        assert(instruction_views(raw_insts) =~= listing_of(e, elf_bytes@, start_addr, end_addr));
    }
    if !args.no_demangle {
        let names = extract_mangled_symbols(instructions.as_slice());
        assert(name_views(names@) == string_views(names@));
        if names.len() > 0 {
            let backend = CppDemangleBackend;
            let map = backend.demangle_batch(names.as_slice())?;
            apply_demangling(instructions.as_mut_slice(), &map);
        } else {
            assert(mangled_symbols(raw_insts) =~= Seq::<Seq<char>>::empty());
        }
    }
    let annotated = AnnotatedInstruction::from_many(instructions.as_slice(), &addr_to_src);
    let display_items = DisplayItem::from_annotated(annotated.as_slice())?;
    proof {
        let items = display_items@;
        let entries = demangle_entries(args.no_demangle, raw_insts);
        let m = addr_map_units(unit_views(units@), units@.len() as int);
        assert(annotated@ =~= annotated_of(items));
        assert forall|i: int| 0 <= i < items.len() implies {
            &&& (#[trigger] items[i]).instruction.address == raw_insts[i].address
            &&& items[i].instruction.bytes == raw_insts[i].bytes
            &&& items[i].instruction.mnemonic@ == demangle_text(raw_insts[i].mnemonic@, entries)
            &&& opt_loc_view(items[i].source) == inherited_view(raw_insts, m, i)
            &&& items[i].color == item_color(annotated_of(items), i)
        } by {
            lemma_inherited_view(instructions@, raw_insts, addr_to_src@, i);
        }
        assert(items_match(items, raw_insts, entries, m));
        let e = goblin_elf(elf_bytes@)->0;
        assert(instruction_views(raw_insts) == listing_of(e, elf_bytes@, start_addr, end_addr));
    }
    let data = AnnotationData { display_items, source_reader, display_name: name };
    let r = Ok::<AnnotationData, AnnotateError>(data);
    proof {
        let u = (*dwarf)->Ok_0;
        assert(u == *units);
        assert(r->Ok_0.display_items@ == display_items@);
        assert(items_match(r->Ok_0.display_items@, raw_insts, demangle_entries(args.no_demangle, raw_insts), addr_map_units(unit_views(u@), u@.len() as int)));
    }
    r
}

/// Loads everything needed to annotate `func_name` from the bytes of the ELF file, its
/// line tables read from its DWARF sections (see `read_line_tables`).
///
/// The outcome is that of `annotation_from_tables` on those tables: in order, the remap
/// arguments must pair up (`InvalidRemap`); the bytes must parse (`ElfParse`) and name the
/// function (`FunctionNotFound`, `FunctionRangeOverflow`); the line tables must decode
/// (`Dwarf`); the range must disassemble (see `disassemble_range`). When all of these hold
/// the annotation loads.
pub fn load_annotation_data(args: &Cli, elf_bytes: &[u8], func_name: &str) -> (r: Result<AnnotationData, AnnotateError>)
    ensures
        args.remap.len() % 2 == 1 ==> (r matches Err(e) && e is InvalidRemap),
        (args.remap.len() % 2 == 0 && goblin_elf(elf_bytes@) is None) ==> (r matches Err(e) && e is ElfParse),
        args.remap.len() % 2 == 0 ==> (goblin_elf(elf_bytes@) matches Some(e) ==> (function_symbol(e, func_name@) is None ==> (r matches Err(x) && x is FunctionNotFound))),
        args.remap.len() % 2 == 0 ==> (goblin_elf(elf_bytes@) matches Some(e) ==> (function_symbol(e, func_name@) matches Some(s) ==> (clear_thumb(s.value) + s.size > u64::MAX ==> (r matches Err(x) && x is FunctionRangeOverflow)))),
        args.remap.len() % 2 == 0 ==> (goblin_elf(elf_bytes@) matches Some(e) ==> (function_symbol(e, func_name@) matches Some(s) ==> (clear_thumb(s.value) + s.size <= u64::MAX ==> {
            let start = clear_thumb(s.value);
            let end = (clear_thumb(s.value) + s.size) as u64;
            let tables = dwarf_line_tables(elf_bytes@);
            &&& tables is None ==> (r matches Err(x) && x is Dwarf)
            &&& (tables is Some && arch_spec(e, start) is None) ==> (r matches Err(x) && x is UnsupportedArchitecture)
            &&& (tables is Some && arch_spec(e, start) == Some(CapstoneArch::X86_64)) ==> (r matches Err(x) && x is CapstoneInit)
            &&& (tables is Some && arch_spec(e, start) is Some && function_code(e, elf_bytes@, start, end) is None) ==> r is Err
            &&& tables is Some ==> (arch_spec(e, start) matches Some(a) ==> (!capstone_opens(a) ==> (r matches Err(x) && x is CapstoneInit)))
            &&& tables is Some ==> (arch_spec(e, start) matches Some(a) ==> (capstone_opens(a) ==> (function_code(e, elf_bytes@, start, end) matches Some(code) ==> {
                &&& capstone_result(a, code, start) is None ==> (r matches Err(x) && x is Disassembly)
                &&& capstone_result(a, code, start) is Some ==> r is Ok
            })))
            &&& tables matches Some(t) ==> (r matches Ok(data) ==> exists|insts: Seq<Instruction>|
                instruction_views(insts) == listing_of(e, elf_bytes@, start, end) && #[trigger] items_match(
                    data.display_items@,
                    insts,
                    demangle_entries(args.no_demangle, insts),
                    addr_map_units(t, t.len() as int),
                ))
        }))),
        r matches Ok(data) ==> {
            &&& data.display_name@ == display_name_spec(args.no_demangle, func_name@)
            &&& data.source_reader.sources().len() == 0
            &&& data.source_reader.remaps().len() == args.remap.len() / 2
            &&& forall|k: int| 0 <= k < args.remap.len() / 2 ==> #[trigger] data.source_reader.remaps()[k] == (args.remap[2 * k]@, args.remap[2 * k + 1]@)
        },
{
    let dwarf = read_line_tables(elf_bytes);
    let r = annotation_from_tables(args, elf_bytes, &dwarf, func_name);
    proof {
        if dwarf is Ok && r is Ok {
            let u = dwarf->Ok_0;
            let t = dwarf_line_tables(elf_bytes@)->0;
            assert(unit_views(u@) == t);
            assert(addr_map_units(unit_views(u@), u@.len() as int) == addr_map_units(t, t.len() as int));
            let e = goblin_elf(elf_bytes@)->0;
            let s = function_symbol(e, func_name@)->0;
            let start = clear_thumb(s.value);
            let end = (clear_thumb(s.value) + s.size) as u64;
            let data = r->Ok_0;
            let insts = choose|insts: Seq<Instruction>|
                instruction_views(insts) == listing_of(e, elf_bytes@, start, end) && #[trigger] items_match(
                    data.display_items@,
                    insts,
                    demangle_entries(args.no_demangle, insts),
                    addr_map_units(unit_views(u@), u@.len() as int),
                );
            assert(items_match(data.display_items@, insts, demangle_entries(args.no_demangle, insts), addr_map_units(t, t.len() as int)));
        }
    }
    r
}

/// The files the source panel needs: the remapped path of every item's source file, in
/// ascending order, each once.
pub open spec fn files_to_load_spec(reader: SourceReader, items: Seq<DisplayItem>) -> Seq<Seq<char>> {
    choose|fs: Seq<Seq<char>>| sorted_by(fs, chars_order()) && forall|p: Seq<char>| #[trigger] fs.contains(p) <==> exists|i: int|
        0 <= i < items.len() && items[i].source is Some && #[trigger] remap_spec(reader.remaps(), items[i].source->0.file@) == p
}

/// The remapped paths of the source files that the items refer to, sorted, each once.
pub fn files_to_load(data: &AnnotationData) -> (r: Vec<String>)
    ensures
        string_views(r@) == files_to_load_spec(data.source_reader, data.display_items@),
{
    let ghost items = data.display_items@;
    let ghost reader = data.source_reader;
    let mut found: Vec<Vec<char>> = Vec::new();
    let mut i: usize = 0;
    while i < data.display_items.len()
        invariant
            items == data.display_items@,
            reader == data.source_reader,
            i <= items.len(),
            sorted_by(views(found@), chars_order()),
            forall|p: Seq<char>| #[trigger] views(found@).contains(p) <==> exists|j: int|
                0 <= j < i && items[j].source is Some && #[trigger] remap_spec(reader.remaps(), items[j].source->0.file@) == p,
        decreases items.len() - i,
    {
        match &data.display_items[i].source {
            Some(src) => {
                let path = data.source_reader.apply_remaps(src.file.as_str());
                let pv = chars_of(path.as_str());
                let ghost q = remap_spec(reader.remaps(), items[i as int].source->0.file@);
                assert(items[i as int].source == Some(*src));
                assert(pv@ == q);
                let ghost before = views(found@);
                insert_chars_sorted(&mut found, pv.as_slice());
                assert forall|p: Seq<char>| #[trigger] views(found@).contains(p) <==> exists|j: int|
                    0 <= j < i + 1 && items[j].source is Some && #[trigger] remap_spec(reader.remaps(), items[j].source->0.file@) == p by {
                    if views(found@).contains(p) {
                        if p == q {
                            assert(items[i as int].source is Some && remap_spec(reader.remaps(), items[i as int].source->0.file@) == p);
                        } else {
                            assert(before.contains(p));
                            let j = choose|j: int| 0 <= j < i && items[j].source is Some && #[trigger] remap_spec(reader.remaps(), items[j].source->0.file@) == p;
                            assert(0 <= j < i + 1);
                        }
                    }
                    if exists|j: int| 0 <= j < i + 1 && items[j].source is Some && #[trigger] remap_spec(reader.remaps(), items[j].source->0.file@) == p {
                        let j = choose|j: int| 0 <= j < i + 1 && items[j].source is Some && #[trigger] remap_spec(reader.remaps(), items[j].source->0.file@) == p;
                        if j < i {
                            assert(exists|j: int| 0 <= j < i && items[j].source is Some && #[trigger] remap_spec(reader.remaps(), items[j].source->0.file@) == p);
                            assert(before.contains(p));
                        } else {
                            assert(p == q);
                        }
                    }
                }
            },
            None => {
                assert forall|p: Seq<char>| #[trigger] views(found@).contains(p) <==> exists|j: int|
                    0 <= j < i + 1 && items[j].source is Some && #[trigger] remap_spec(reader.remaps(), items[j].source->0.file@) == p by {
                    if exists|j: int| 0 <= j < i + 1 && items[j].source is Some && #[trigger] remap_spec(reader.remaps(), items[j].source->0.file@) == p {
                        let j = choose|j: int| 0 <= j < i + 1 && items[j].source is Some && #[trigger] remap_spec(reader.remaps(), items[j].source->0.file@) == p;
                        assert(j < i);
                        assert(exists|j: int| 0 <= j < i && items[j].source is Some && #[trigger] remap_spec(reader.remaps(), items[j].source->0.file@) == p);
                    }
                }
            },
        }
        i = i + 1;
    }
    proof {
        lemma_chars_order_strict_total();
        lemma_sorted_unique(views(found@), files_to_load_spec(reader, items), chars_order());
    }
    let mut out: Vec<String> = Vec::new();
    let mut k: usize = 0;
    while k < found.len()
        invariant
            k <= found.len(),
            string_views(out@) == views(found@).take(k as int),
        decreases found.len() - k,
    {
        let ghost o0 = out@;
        let st = string_of(found[k].as_slice());
        out.push(st);
        assert(string_views(out@) =~= string_views(o0).push(st@));
        assert(views(found@).take(k as int + 1) =~= views(found@).take(k as int).push(found[k as int]@));
        k = k + 1;
    }
    assert(views(found@).take(found.len() as int) == views(found@));
    out
}

} // verus!
