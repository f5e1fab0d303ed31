//! ELF symbol and section data, and the queries the annotator makes of it.
use vstd::prelude::*;
use crate::error::AnnotateError;
use crate::text::{chars_of, chars_eq, copy_string, str_eq};

verus! {

/// `STT_FUNC`: a function symbol.
pub const STT_FUNC: u8 = 2;
/// `SHT_PROGBITS`: a section with program-defined contents.
pub const SHT_PROGBITS: u32 = 1;
/// `SHF_EXECINSTR`: a section of executable instructions.
pub const SHF_EXECINSTR: u64 = 4;
/// `EM_X86_64`.
pub const EM_X86_64: u16 = 62;
/// `EM_ARM`.
pub const EM_ARM: u16 = 40;
/// `EM_AARCH64`.
pub const EM_AARCH64: u16 = 183;
/// `ELFDATA2LSB`: little-endian data.
pub const ELFDATA2LSB: u8 = 1;

/// A symbol table entry, with its name looked up in both string tables.
#[derive(Debug, Clone)]
pub struct SymbolEntry {
    /// The name at the entry's name offset in the symbol string table.
    pub strtab_name: Option<String>,
    /// The name at the entry's name offset in the dynamic string table.
    pub dynstrtab_name: Option<String>,
    /// The symbol type (`st_type`).
    pub kind: u8,
    /// `st_value`.
    pub value: u64,
    /// `st_size`.
    pub size: u64,
}

/// A section header, with its name.
#[derive(Debug, Clone)]
pub struct SectionEntry {
    /// The section's name in the section header string table.
    pub name: Option<String>,
    /// `sh_type`.
    pub kind: u32,
    /// `sh_flags`.
    pub flags: u64,
    /// `sh_addr`.
    pub addr: u64,
    /// `sh_offset`.
    pub offset: u64,
    /// `sh_size`.
    pub size: u64,
}

/// The view of an optional string.
pub open spec fn opt_str(s: Option<String>) -> Option<Seq<char>> {
    match s {
        Some(t) => Some(t@),
        None => None,
    }
}

/// What a symbol table entry holds.
pub struct SymbolView {
    pub strtab_name: Option<Seq<char>>,
    pub dynstrtab_name: Option<Seq<char>>,
    pub kind: u8,
    pub value: u64,
    pub size: u64,
}

/// What a section header holds.
pub struct SectionView {
    pub name: Option<Seq<char>>,
    pub kind: u32,
    pub flags: u64,
    pub addr: u64,
    pub offset: u64,
    pub size: u64,
}

/// What the library reads of an ELF file.
pub struct ElfView {
    pub machine: u16,
    pub data_encoding: u8,
    pub sections: Seq<SectionView>,
    pub symbols: Seq<SymbolView>,
    pub dynamic_symbols: Seq<SymbolView>,
}

impl View for SymbolEntry {
    type V = SymbolView;

    open spec fn view(&self) -> SymbolView {
        SymbolView {
            strtab_name: opt_str(self.strtab_name),
            dynstrtab_name: opt_str(self.dynstrtab_name),
            kind: self.kind,
            value: self.value,
            size: self.size,
        }
    }
}

impl View for SectionEntry {
    type V = SectionView;

    open spec fn view(&self) -> SectionView {
        SectionView {
            name: opt_str(self.name),
            kind: self.kind,
            flags: self.flags,
            addr: self.addr,
            offset: self.offset,
            size: self.size,
        }
    }
}

/// The symbol entries as views.
pub open spec fn symbol_views(v: Seq<SymbolEntry>) -> Seq<SymbolView> {
    v.map_values(|s: SymbolEntry| s@)
}

/// The section entries as views.
pub open spec fn section_views(v: Seq<SectionEntry>) -> Seq<SectionView> {
    v.map_values(|s: SectionEntry| s@)
}

/// The data of an ELF file that the library works on.
#[derive(Debug, Clone)]
pub struct ElfImage {
    /// `e_machine`.
    pub machine: u16,
    /// `e_ident[EI_DATA]`.
    pub data_encoding: u8,
    /// The section headers, in order.
    pub sections: Vec<SectionEntry>,
    /// The symbol table, in order.
    pub symbols: Vec<SymbolEntry>,
    /// The dynamic symbol table, in order.
    pub dynamic_symbols: Vec<SymbolEntry>,
}

impl View for ElfImage {
    type V = ElfView;

    open spec fn view(&self) -> ElfView {
        ElfView {
            machine: self.machine,
            data_encoding: self.data_encoding,
            sections: section_views(self.sections@),
            symbols: symbol_views(self.symbols@),
            dynamic_symbols: symbol_views(self.dynamic_symbols@),
        }
    }
}

#[verifier::external_type_specification]
#[verifier::external_body]
pub struct ExGoblinError(goblin::error::Error);

/// What `goblin` reads of an ELF file: `None` when `Elf::parse` rejects the bytes.
pub uninterp spec fn goblin_elf(bytes: Seq<u8>) -> Option<ElfView>;

/// `goblin::elf::Elf::parse`, keeping `e_machine` and `e_ident[EI_DATA]`.
///
/// Claims that parsing succeeds exactly when `goblin_elf` has a value for the bytes, and that
/// the two header fields are that value's.
#[verifier::external_body]
fn goblin_header(bytes: &[u8]) -> (r: Result<(u16, u8), goblin::error::Error>)
    ensures
        r is Ok <==> goblin_elf(bytes@) is Some,
        r matches Ok(h) ==> h.0 == goblin_elf(bytes@)->0.machine && h.1 == goblin_elf(bytes@)->0.data_encoding,
{
    let elf = goblin::elf::Elf::parse(bytes)?;
    Ok((elf.header.e_machine, elf.header.e_ident[goblin::elf::header::EI_DATA]))
}

/// `goblin::elf::Elf::parse`, keeping the section headers with their names
/// (`Strtab::get_at` on the section header string table).
///
/// Claims that parsing succeeds exactly when `goblin_elf` has a value for the bytes, and that
/// the sections are that value's.
#[verifier::external_body]
fn goblin_sections(bytes: &[u8]) -> (r: Result<Vec<SectionEntry>, goblin::error::Error>)
    ensures
        r is Ok <==> goblin_elf(bytes@) is Some,
        r matches Ok(v) ==> section_views(v@) == goblin_elf(bytes@)->0.sections,
{
    let elf = goblin::elf::Elf::parse(bytes)?;
    Ok(elf.section_headers.iter().map(|h| SectionEntry {
        name: elf.shdr_strtab.get_at(h.sh_name).map(String::from),
        kind: h.sh_type, flags: h.sh_flags, addr: h.sh_addr, offset: h.sh_offset, size: h.sh_size,
    }).collect())
}

/// `goblin::elf::Elf::parse`, keeping the symbol table with each entry's name in both
/// string tables (`Strtab::get_at`).
///
/// Claims that parsing succeeds exactly when `goblin_elf` has a value for the bytes, and that
/// the symbols are that value's.
#[verifier::external_body]
fn goblin_symbols(bytes: &[u8]) -> (r: Result<Vec<SymbolEntry>, goblin::error::Error>)
    ensures
        r is Ok <==> goblin_elf(bytes@) is Some,
        r matches Ok(v) ==> symbol_views(v@) == goblin_elf(bytes@)->0.symbols,
{
    let elf = goblin::elf::Elf::parse(bytes)?;
    Ok(elf.syms.iter().map(|s| SymbolEntry {
        strtab_name: elf.strtab.get_at(s.st_name).map(String::from),
        dynstrtab_name: elf.dynstrtab.get_at(s.st_name).map(String::from),
        kind: s.st_type(), value: s.st_value, size: s.st_size,
    }).collect())
}

/// `goblin::elf::Elf::parse`, keeping the dynamic symbol table with each entry's name in
/// both string tables (`Strtab::get_at`).
///
/// Claims that parsing succeeds exactly when `goblin_elf` has a value for the bytes, and that
/// the dynamic symbols are that value's.
#[verifier::external_body]
fn goblin_dynamic_symbols(bytes: &[u8]) -> (r: Result<Vec<SymbolEntry>, goblin::error::Error>)
    ensures
        r is Ok <==> goblin_elf(bytes@) is Some,
        r matches Ok(v) ==> symbol_views(v@) == goblin_elf(bytes@)->0.dynamic_symbols,
{
    let elf = goblin::elf::Elf::parse(bytes)?;
    Ok(elf.dynsyms.iter().map(|s| SymbolEntry {
        strtab_name: elf.strtab.get_at(s.st_name).map(String::from),
        dynstrtab_name: elf.dynstrtab.get_at(s.st_name).map(String::from),
        kind: s.st_type(), value: s.st_value, size: s.st_size,
    }).collect())
}

impl ElfImage {
    /// Reads the ELF data of `bytes`; fails with `ElfParse` when goblin rejects them.
    pub fn parse(bytes: &[u8]) -> (r: Result<ElfImage, AnnotateError>)
        ensures
            r is Ok <==> goblin_elf(bytes@) is Some,
            r matches Ok(img) ==> goblin_elf(bytes@) == Some(img@),
            r matches Err(e) ==> e is ElfParse,
    {
        let header = match goblin_header(bytes) {
            Ok(h) => h,
            Err(_) => return Err(AnnotateError::ElfParse),
        };
        let sections = match goblin_sections(bytes) {
            Ok(v) => v,
            Err(_) => return Err(AnnotateError::ElfParse),
        };
        let symbols = match goblin_symbols(bytes) {
            Ok(v) => v,
            Err(_) => return Err(AnnotateError::ElfParse),
        };
        let dynamic_symbols = match goblin_dynamic_symbols(bytes) {
            Ok(v) => v,
            Err(_) => return Err(AnnotateError::ElfParse),
        };
        let img = ElfImage { machine: header.0, data_encoding: header.1, sections, symbols, dynamic_symbols };
        assert(img@ == goblin_elf(bytes@)->0);
        Ok(img)
    }
}

/// A function symbol: its name, start address and size.
#[derive(Debug, Clone, PartialEq, Eq)]
pub struct FunctionInfo {
    pub name: String,
    pub addr: u64,
    pub size: u64,
}

/// What a function entry holds.
pub struct FunctionView {
    pub name: Seq<char>,
    pub addr: u64,
    pub size: u64,
}

impl View for FunctionInfo {
    type V = FunctionView;

    open spec fn view(&self) -> FunctionView {
        FunctionView { name: self.name@, addr: self.addr, size: self.size }
    }
}

/// The function entries as views.
pub open spec fn function_views(v: Seq<FunctionInfo>) -> Seq<FunctionView> {
    v.map_values(|f: FunctionInfo| f@)
}

/// An address with its lowest bit (the ARM Thumb bit) cleared.
pub open spec fn clear_thumb(v: u64) -> u64 {
    v & !1u64
}

fn clear_thumb_exec(v: u64) -> (r: u64)
    ensures
        r == clear_thumb(v),
{
    v & !1u64
}

/// The function entries for the static symbols among the first `n`: function symbols of
/// non-zero size whose name is in the symbol string table.
pub open spec fn static_functions(syms: Seq<SymbolView>, n: int) -> Seq<FunctionView>
    decreases n,
{
    if n <= 0 {
        seq![]
    } else {
        let p = static_functions(syms, n - 1);
        let s = syms[n - 1];
        if s.kind == STT_FUNC && s.size > 0 && s.strtab_name is Some {
            p.push(FunctionView { name: s.strtab_name->0, addr: clear_thumb(s.value), size: s.size })
        } else {
            p
        }
    }
}

/// `acc` extended with the dynamic function symbols among the first `n` (non-zero size, name
/// in the dynamic string table) that are not yet listed with the same name and address.
pub open spec fn with_dynamic_functions(acc: Seq<FunctionView>, dsyms: Seq<SymbolView>, n: int) -> Seq<FunctionView>
    decreases n,
{
    if n <= 0 {
        acc
    } else {
        let p = with_dynamic_functions(acc, dsyms, n - 1);
        let s = dsyms[n - 1];
        if s.kind == STT_FUNC && s.size > 0 && s.dynstrtab_name is Some && !(exists|k: int|
            0 <= k < p.len() && #[trigger] p[k].name == s.dynstrtab_name->0 && p[k].addr == clear_thumb(s.value)) {
            p.push(FunctionView { name: s.dynstrtab_name->0, addr: clear_thumb(s.value), size: s.size })
        } else {
            p
        }
    }
}

/// `s` with `x` inserted after every entry whose address is at most `x`'s.
pub open spec fn insert_by_addr(s: Seq<FunctionView>, x: FunctionView) -> Seq<FunctionView>
    decreases s.len(),
{
    if s.len() == 0 {
        seq![x]
    } else if s.last().addr <= x.addr {
        s.push(x)
    } else {
        insert_by_addr(s.drop_last(), x).push(s.last())
    }
}

/// `s` stably sorted by address.
pub open spec fn sort_by_addr(s: Seq<FunctionView>) -> Seq<FunctionView>
    decreases s.len(),
{
    if s.len() == 0 {
        s
    } else {
        insert_by_addr(sort_by_addr(s.drop_last()), s.last())
    }
}

/// The function list of an ELF file: static function symbols, then dynamic ones not
/// already listed, stably sorted by address.
pub open spec fn function_list(e: ElfView) -> Seq<FunctionView> {
    sort_by_addr(with_dynamic_functions(static_functions(e.symbols, e.symbols.len() as int), e.dynamic_symbols, e.dynamic_symbols.len() as int))
}

/// Non-decreasing by address.
pub open spec fn sorted_by_addr(s: Seq<FunctionView>) -> bool {
    forall|i: int, j: int| 0 <= i < j < s.len() ==> #[trigger] s[i].addr <= #[trigger] s[j].addr
}

proof fn lemma_insert_by_addr(s: Seq<FunctionView>, x: FunctionView)
    requires
        sorted_by_addr(s),
    ensures
        sorted_by_addr(insert_by_addr(s, x)),
        insert_by_addr(s, x).len() == s.len() + 1,
        insert_by_addr(s, x).to_multiset() == s.to_multiset().insert(x),
    decreases s.len(),
{
    broadcast use vstd::seq_lib::group_to_multiset_ensures;
    if s.len() > 0 && s.last().addr > x.addr {
        let d = s.drop_last();
        assert(sorted_by_addr(d)) by {
            assert forall|i: int, j: int| 0 <= i < j < d.len() implies #[trigger] d[i].addr <= #[trigger] d[j].addr by {
                assert(s[i].addr <= s[j].addr);
            }
        }
        lemma_insert_by_addr(d, x);
        let t = insert_by_addr(d, x);
        let r = t.push(s.last());
        assert forall|i: int, j: int| 0 <= i < j < r.len() implies #[trigger] r[i].addr <= #[trigger] r[j].addr by {
            if j == r.len() - 1 {
                assert(r[j] == s.last());
                assert(t.to_multiset().count(r[i]) > 0) by {
                    assert(t.contains(r[i]));
                }
                assert(d.to_multiset().insert(x).count(r[i]) > 0);
                if r[i] != x {
                    assert(d.to_multiset().count(r[i]) > 0);
                    assert(d.contains(r[i]));
                    let k = choose|k: int| 0 <= k < d.len() && d[k] == r[i];
                    assert(s[k].addr <= s[s.len() - 1].addr);
                }
            } else {
                assert(r[i] == t[i] && r[j] == t[j]);
            }
        }
        assert(s =~= d.push(s.last()));
    } else if s.len() > 0 {
        assert forall|i: int, j: int| 0 <= i < j < s.push(x).len() implies #[trigger] s.push(x)[i].addr <= #[trigger] s.push(x)[j].addr by {
            if j == s.len() {
                assert(s[i].addr <= s.last().addr);
            }
        }
    }
}

/// The function list is sorted by address and holds exactly the listed symbols.
pub proof fn lemma_sort_by_addr(s: Seq<FunctionView>)
    ensures
        sorted_by_addr(sort_by_addr(s)),
        sort_by_addr(s).to_multiset() == s.to_multiset(),
    decreases s.len(),
{
    broadcast use vstd::seq_lib::group_to_multiset_ensures;
    if s.len() > 0 {
        lemma_sort_by_addr(s.drop_last());
        lemma_insert_by_addr(sort_by_addr(s.drop_last()), s.last());
        assert(s =~= s.drop_last().push(s.last()));
    }
}

/// A copy of a function entry.
fn function_of(name: &String, s: &SymbolEntry) -> (r: FunctionInfo)
    ensures
        r@ == (FunctionView { name: name@, addr: clear_thumb(s.value), size: s.size }),
{
    FunctionInfo { name: copy_string(name), addr: clear_thumb_exec(s.value), size: s.size }
}

/// Whether `funcs` lists `name` at `addr`.
fn listed(funcs: &Vec<FunctionInfo>, name: &String, addr: u64) -> (r: bool)
    ensures
        r == exists|k: int| 0 <= k < funcs.len() && #[trigger] function_views(funcs@)[k].name == name@ && function_views(funcs@)[k].addr == addr,
{
    let mut k: usize = 0;
    while k < funcs.len()
        invariant
            k <= funcs.len(),
            forall|j: int| 0 <= j < k ==> !(#[trigger] function_views(funcs@)[j].name == name@ && function_views(funcs@)[j].addr == addr),
        decreases funcs.len() - k,
    {
        if funcs[k].addr == addr && funcs[k].name == *name {
            assert(function_views(funcs@)[k as int].name == name@);
            return true;
        }
        k = k + 1;
    }
    false
}

/// Inserts `x` after every entry whose address is at most `x`'s.
fn insert_function_by_addr(v: &mut Vec<FunctionInfo>, x: FunctionInfo)
    ensures
        function_views(final(v)@) == insert_by_addr(function_views(old(v)@), x@),
{
    let ghost s = function_views(v@);
    let mut p = v.len();
    assert(s.take(p as int) == s);
    assert(s.skip(p as int) =~= Seq::<FunctionView>::empty());
    while p > 0 && v[p - 1].addr > x.addr
        invariant
            p <= v.len(),
            v@ == old(v)@,
            s == function_views(v@),
            insert_by_addr(s, x@) == insert_by_addr(s.take(p as int), x@) + s.skip(p as int),
        decreases p,
    {
        let ghost t = s.take(p as int);
        assert(t.drop_last() == s.take(p as int - 1));
        assert(t.last() == s[p as int - 1]);
        assert(s.skip(p as int - 1) =~= seq![s[p as int - 1]] + s.skip(p as int));
        assert(insert_by_addr(t, x@) == insert_by_addr(t.drop_last(), x@).push(t.last()));
        assert(insert_by_addr(t.drop_last(), x@).push(t.last()) + s.skip(p as int) =~= insert_by_addr(t.drop_last(), x@) + s.skip(p as int - 1));
        p = p - 1;
    }
    let ghost t = s.take(p as int);
    if p > 0 {
        assert(t.last() == s[p as int - 1]);
    } else {
        assert(t.len() == 0);
    }
    assert(insert_by_addr(t, x@) == t.push(x@));
    let ghost xv = x@;
    v.insert(p, x);
    assert(function_views(v@) =~= t.push(xv) + s.skip(p as int));
}

/// Lists the function symbols of an ELF file (see `function_list`).
pub fn list_functions(elf: &ElfImage) -> (r: Vec<FunctionInfo>)
    ensures
        function_views(r@) == function_list(elf@),
{
    let ghost syms = elf@.symbols;
    let ghost dsyms = elf@.dynamic_symbols;
    let mut funcs: Vec<FunctionInfo> = Vec::new();
    let mut i: usize = 0;
    while i < elf.symbols.len()
        invariant
            i <= elf.symbols.len(),
            syms == elf@.symbols,
            function_views(funcs@) == static_functions(syms, i as int),
        decreases elf.symbols.len() - i,
    {
        let sym = &elf.symbols[i];
        assert(syms[i as int] == sym@);
        if sym.kind == STT_FUNC && sym.size > 0 {
            match &sym.strtab_name {
                Some(name) => {
                    let ghost f0 = funcs@;
                    let f = function_of(name, sym);
                    funcs.push(f);
                    assert(function_views(funcs@) =~= function_views(f0).push(f@));
                },
                None => {},
            }
        }
        i = i + 1;
    }
    let ghost stat = function_views(funcs@);
    let mut j: usize = 0;
    while j < elf.dynamic_symbols.len()
        invariant
            j <= elf.dynamic_symbols.len(),
            dsyms == elf@.dynamic_symbols,
            function_views(funcs@) == with_dynamic_functions(stat, dsyms, j as int),
        decreases elf.dynamic_symbols.len() - j,
    {
        let sym = &elf.dynamic_symbols[j];
        assert(dsyms[j as int] == sym@);
        if sym.kind == STT_FUNC && sym.size > 0 {
            match &sym.dynstrtab_name {
                Some(name) => {
                    let a = clear_thumb_exec(sym.value);
                    if !listed(&funcs, name, a) {
                        let ghost f0 = funcs@;
                        let f = function_of(name, sym);
                        funcs.push(f);
                        assert(function_views(funcs@) =~= function_views(f0).push(f@));
                    }
                },
                None => {},
            }
        }
        j = j + 1;
    }
    let ghost collected = function_views(funcs@);
    let mut sorted: Vec<FunctionInfo> = Vec::new();
    let mut k: usize = 0;
    assert(collected.take(0) =~= Seq::<FunctionView>::empty());
    while k < funcs.len()
        invariant
            k <= funcs.len(),
            collected == function_views(funcs@),
            function_views(sorted@) == sort_by_addr(collected.take(k as int)),
        decreases funcs.len() - k,
    {
        assert(collected.take(k as int + 1).drop_last() == collected.take(k as int));
        assert(collected.take(k as int + 1).last() == funcs[k as int]@);
        let f = FunctionInfo { name: copy_string(&funcs[k].name), addr: funcs[k].addr, size: funcs[k].size };
        insert_function_by_addr(&mut sorted, f);
        k = k + 1;
    }
    assert(collected.take(funcs.len() as int) == collected);
    sorted
}

/// Index of the first function symbol from `i` on whose name (in the symbol string table
/// when `dynamic` is false, in the dynamic one otherwise) is `name`.
pub open spec fn find_named_function(syms: Seq<SymbolView>, name: Seq<char>, dynamic: bool, i: int) -> Option<int>
    decreases syms.len() - i,
{
    if i < 0 || i >= syms.len() {
        None
    } else if syms[i].kind == STT_FUNC && (if dynamic {
        syms[i].dynstrtab_name
    } else {
        syms[i].strtab_name
    }) == Some(name) {
        Some(i)
    } else {
        find_named_function(syms, name, dynamic, i + 1)
    }
}

/// The symbol that names function `name`: the first match in the symbol table, otherwise
/// the first in the dynamic symbol table.
pub open spec fn function_symbol(e: ElfView, name: Seq<char>) -> Option<SymbolView> {
    match find_named_function(e.symbols, name, false, 0) {
        Some(i) => Some(e.symbols[i]),
        None => match find_named_function(e.dynamic_symbols, name, true, 0) {
            Some(i) => Some(e.dynamic_symbols[i]),
            None => None,
        },
    }
}

fn find_named_function_exec(syms: &Vec<SymbolEntry>, name: &str, dynamic: bool) -> (r: Option<usize>)
    ensures
        match r {
            Some(i) => find_named_function(symbol_views(syms@), name@, dynamic, 0) == Some(i as int) && i < syms.len(),
            None => find_named_function(symbol_views(syms@), name@, dynamic, 0) is None,
        },
{
    let ghost sv = symbol_views(syms@);
    let mut i: usize = 0;
    while i < syms.len()
        invariant
            i <= syms.len(),
            sv == symbol_views(syms@),
            find_named_function(sv, name@, dynamic, 0) == find_named_function(sv, name@, dynamic, i as int),
        decreases syms.len() - i,
    {
        let s = &syms[i];
        assert(sv[i as int] == s@);
        if s.kind == STT_FUNC {
            let n = if dynamic {
                &s.dynstrtab_name
            } else {
                &s.strtab_name
            };
            match n {
                Some(nm) => {
                    if str_eq(nm.as_str(), name) {
                        return Some(i);
                    }
                },
                None => {},
            }
        }
        i = i + 1;
    }
    None
}

/// The address range `[start, end)` of function `name`: the start is the symbol's value
/// with the Thumb bit cleared, the end is `size` bytes on.
///
/// Fails with `FunctionNotFound` when no function symbol has that name, and with
/// `FunctionRangeOverflow` when the end would pass the address space.
pub fn get_function_bounds(elf: &ElfImage, func_name: &str) -> (r: Result<(u64, u64), AnnotateError>)
    ensures
        match function_symbol(elf@, func_name@) {
            None => r matches Err(e) && e is FunctionNotFound,
            Some(s) => if clear_thumb(s.value) + s.size <= u64::MAX {
                r == Ok::<(u64, u64), AnnotateError>((clear_thumb(s.value), (clear_thumb(s.value) + s.size) as u64))
            } else {
                r matches Err(e) && e is FunctionRangeOverflow
            },
        },
{
    let sym = match find_named_function_exec(&elf.symbols, func_name, false) {
        Some(i) => &elf.symbols[i],
        None => match find_named_function_exec(&elf.dynamic_symbols, func_name, true) {
            Some(i) => &elf.dynamic_symbols[i],
            None => return Err(AnnotateError::FunctionNotFound { name: func_name.to_string() }),
        },
    };
    let start = clear_thumb_exec(sym.value);
    match start.checked_add(sym.size) {
        Some(end) => Ok((start, end)),
        None => Err(AnnotateError::FunctionRangeOverflow { name: func_name.to_string() }),
    }
}

/// The name of a symbol: from the symbol string table, else from the dynamic one.
pub open spec fn symbol_name(s: SymbolView) -> Option<Seq<char>> {
    match s.strtab_name {
        Some(n) => Some(n),
        None => s.dynstrtab_name,
    }
}

/// The first named function symbol that starts exactly at `a`.
pub open spec fn exact_symbol(all: Seq<SymbolView>, a: u64, i: int) -> Option<Seq<char>>
    decreases all.len() - i,
{
    if i < 0 || i >= all.len() {
        None
    } else if all[i].kind == STT_FUNC && clear_thumb(all[i].value) == a && symbol_name(all[i]) is Some {
        symbol_name(all[i])
    } else {
        exact_symbol(all, a, i + 1)
    }
}

/// Among the first `n` symbols, the first named one of smallest non-zero size whose range
/// contains `a`, with its size.
pub open spec fn smallest_containing(all: Seq<SymbolView>, a: u64, n: int) -> Option<(Seq<char>, u64)>
    decreases n,
{
    if n <= 0 {
        None
    } else {
        let b = smallest_containing(all, a, n - 1);
        let s = all[n - 1];
        let sa = clear_thumb(s.value);
        if sa <= a && a < sa + s.size && symbol_name(s) is Some && s.size > 0 && (match b {
            Some(best) => s.size < best.1,
            None => true,
        }) {
            Some((symbol_name(s)->0, s.size))
        } else {
            b
        }
    }
}

/// The symbol for an address (Thumb bit cleared): a function symbol starting exactly there,
/// else the smallest symbol containing it.
pub open spec fn symbol_at(e: ElfView, addr: u64) -> Option<Seq<char>> {
    let all = e.symbols + e.dynamic_symbols;
    let a = clear_thumb(addr);
    match exact_symbol(all, a, 0) {
        Some(n) => Some(n),
        None => match smallest_containing(all, a, all.len() as int) {
            Some(best) => Some(best.0),
            None => None,
        },
    }
}

/// The name of a symbol entry (see `symbol_name`).
fn entry_name(s: &SymbolEntry) -> (r: Option<String>)
    ensures
        opt_str(r) == symbol_name(s@),
{
    match &s.strtab_name {
        Some(n) => Some(copy_string(n)),
        None => match &s.dynstrtab_name {
            Some(n) => Some(copy_string(n)),
            None => None,
        },
    }
}

/// Finds the symbol that covers an address (see `symbol_at`).
pub fn get_symbol_at(elf: &ElfImage, addr: u64) -> (r: Result<Option<String>, AnnotateError>)
    ensures
        r matches Ok(n) && opt_str(n) == symbol_at(elf@, addr),
{
    let a = clear_thumb_exec(addr);
    let ghost all = elf@.symbols + elf@.dynamic_symbols;
    let ghost ns = elf.symbols.len() as int;
    let mut i: usize = 0;
    while i < elf.symbols.len()
        invariant
            all == elf@.symbols + elf@.dynamic_symbols,
            ns == elf.symbols.len(),
            a == clear_thumb(addr),
            i <= elf.symbols.len(),
            exact_symbol(all, a, 0) == exact_symbol(all, a, i as int),
        decreases elf.symbols.len() - i,
    {
        let s = &elf.symbols[i];
        assert(all[i as int] == s@);
        if s.kind == STT_FUNC && clear_thumb_exec(s.value) == a {
            let n = entry_name(s);
            if n.is_some() {
                return Ok(n);
            }
        }
        i = i + 1;
    }
    let mut k: usize = 0;
    while k < elf.dynamic_symbols.len()
        invariant
            all == elf@.symbols + elf@.dynamic_symbols,
            ns == elf.symbols.len(),
            a == clear_thumb(addr),
            k <= elf.dynamic_symbols.len(),
            exact_symbol(all, a, 0) == exact_symbol(all, a, ns + k),
        decreases elf.dynamic_symbols.len() - k,
    {
        let s = &elf.dynamic_symbols[k];
        assert(all[ns + k] == s@);
        if s.kind == STT_FUNC && clear_thumb_exec(s.value) == a {
            let n = entry_name(s);
            if n.is_some() {
                return Ok(n);
            }
        }
        k = k + 1;
    }
    let mut best: Option<(String, u64)> = None;
    let mut j: usize = 0;
    while j < elf.symbols.len()
        invariant
            all == elf@.symbols + elf@.dynamic_symbols,
            ns == elf.symbols.len(),
            a == clear_thumb(addr),
            j <= elf.symbols.len(),
            match best {
                Some(b) => smallest_containing(all, a, j as int) == Some((b.0@, b.1)),
                None => smallest_containing(all, a, j as int) is None,
            },
        decreases elf.symbols.len() - j,
    {
        let s = &elf.symbols[j];
        assert(all[j as int] == s@);
        best = consider_containing(best, s, a);
        j = j + 1;
    }
    let mut m: usize = 0;
    while m < elf.dynamic_symbols.len()
        invariant
            all == elf@.symbols + elf@.dynamic_symbols,
            ns == elf.symbols.len(),
            a == clear_thumb(addr),
            m <= elf.dynamic_symbols.len(),
            match best {
                Some(b) => smallest_containing(all, a, ns + m) == Some((b.0@, b.1)),
                None => smallest_containing(all, a, ns + m) is None,
            },
        decreases elf.dynamic_symbols.len() - m,
    {
        let s = &elf.dynamic_symbols[m];
        assert(all[ns + m] == s@);
        best = consider_containing(best, s, a);
        m = m + 1;
    }
    assert(all.len() == ns + elf.dynamic_symbols.len());
    match best {
        Some(b) => Ok(Some(b.0)),
        None => Ok(None),
    }
}

/// One step of the search for the smallest symbol containing `a`.
fn consider_containing(best: Option<(String, u64)>, s: &SymbolEntry, a: u64) -> (r: Option<(String, u64)>)
    ensures
        ({
            let sa = clear_thumb(s.value);
            let bv = match best {
                Some(b) => Some((b.0@, b.1)),
                None => None,
            };
            let rv = match r {
                Some(b) => Some((b.0@, b.1)),
                None => None,
            };
            rv == if sa <= a && a < sa + s.size && symbol_name(s@) is Some && s.size > 0 && (match bv {
                Some(b) => s.size < b.1,
                None => true,
            }) {
                Some((symbol_name(s@)->0, s.size))
            } else {
                bv
            }
        }),
{
    let sa = clear_thumb_exec(s.value);
    if sa <= a && a - sa < s.size {
        match entry_name(s) {
            Some(name) => {
                let better = match &best {
                    Some(b) => s.size > 0 && s.size < b.1,
                    None => s.size > 0,
                };
                if better {
                    return Some((name, s.size));
                }
            },
            None => {},
        }
    }
    best
}

/// ARM instruction set of a function.
#[derive(Debug, Clone, Copy, PartialEq, Eq, Structural)]
pub enum ArmMode {
    Arm,
    Thumb,
}

/// Thumb bit of the first function symbol from `i` on that starts at `start`, if any.
pub open spec fn thumb_bit_at(syms: Seq<SymbolView>, start: u64, i: int) -> Option<bool>
    decreases syms.len() - i,
{
    if i < 0 || i >= syms.len() {
        None
    } else if syms[i].kind == STT_FUNC && clear_thumb(syms[i].value) == start {
        Some(syms[i].value & 1u64 == 1u64)
    } else {
        thumb_bit_at(syms, start, i + 1)
    }
}

/// The instruction set of the function at `start`: Thumb when the first function symbol for
/// it in the symbol table, or failing that in the dynamic symbol table, has the Thumb bit set.
pub open spec fn arm_mode_spec(e: ElfView, start: u64) -> ArmMode {
    if thumb_bit_at(e.symbols, start, 0) == Some(true) || thumb_bit_at(e.dynamic_symbols, start, 0) == Some(true) {
        ArmMode::Thumb
    } else {
        ArmMode::Arm
    }
}

fn thumb_bit_exec(syms: &Vec<SymbolEntry>, start: u64) -> (r: Option<bool>)
    ensures
        r == thumb_bit_at(symbol_views(syms@), start, 0),
{
    let ghost sv = symbol_views(syms@);
    let mut i: usize = 0;
    while i < syms.len()
        invariant
            i <= syms.len(),
            sv == symbol_views(syms@),
            thumb_bit_at(sv, start, 0) == thumb_bit_at(sv, start, i as int),
        decreases syms.len() - i,
    {
        assert(sv[i as int] == syms[i as int]@);
        if syms[i].kind == STT_FUNC && clear_thumb_exec(syms[i].value) == start {
            return Some(syms[i].value & 1u64 == 1u64);
        }
        i = i + 1;
    }
    None
}

/// Determines ARM or Thumb mode for the function starting at `start`.
pub fn determine_arm_mode(elf: &ElfImage, start: u64) -> (r: ArmMode)
    ensures
        r == arm_mode_spec(elf@, start),
{
    let mut is_thumb = false;
    match thumb_bit_exec(&elf.symbols, start) {
        Some(b) => {
            is_thumb = b;
        },
        None => {},
    }
    if !is_thumb {
        match thumb_bit_exec(&elf.dynamic_symbols, start) {
            Some(b) => {
                is_thumb = b;
            },
            None => {},
        }
    }
    if is_thumb {
        ArmMode::Thumb
    } else {
        ArmMode::Arm
    }
}

} // verus!
