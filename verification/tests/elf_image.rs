use asm_annotate::annotate::{annotation_from_tables, load_annotation_data, AnnotationData};
use asm_annotate::dwarf_read::read_line_tables;
use asm_annotate::backend::{ElfBackend, GoblinElfBackend};
use asm_annotate::cli::{Cli, LogLevel};
use asm_annotate::disasm::{disassemble_range, extract_code_range};
use asm_annotate::dump::dump_annotation;
use asm_annotate::dwarf::{source_location, FileRef, LineRowInfo, UnitLines};
use asm_annotate::elf::{get_symbol_at, list_functions, ElfImage};
use asm_annotate::error::AnnotateError;

fn push_u16(v: &mut Vec<u8>, x: u16) {
    v.extend_from_slice(&x.to_le_bytes());
}
fn push_u32(v: &mut Vec<u8>, x: u32) {
    v.extend_from_slice(&x.to_le_bytes());
}
fn push_u64(v: &mut Vec<u8>, x: u64) {
    v.extend_from_slice(&x.to_le_bytes());
}

fn section_header(v: &mut Vec<u8>, name: u32, kind: u32, flags: u64, addr: u64, offset: u64, size: u64, link: u32, info: u32, align: u64, entsize: u64) {
    push_u32(v, name);
    push_u32(v, kind);
    push_u64(v, flags);
    push_u64(v, addr);
    push_u64(v, offset);
    push_u64(v, size);
    push_u32(v, link);
    push_u32(v, info);
    push_u64(v, align);
    push_u64(v, entsize);
}

fn symbol(v: &mut Vec<u8>, name: u32, info: u8, shndx: u16, value: u64, size: u64) {
    push_u32(v, name);
    v.push(info);
    v.push(0);
    push_u16(v, shndx);
    push_u64(v, value);
    push_u64(v, size);
}

/// A little-endian ELF64 file for `machine` with one executable section at 0x1000 holding
/// `code`, and function symbols `main` (0x1000, 4 bytes) and `_Z3foov` (0x1004, 4 bytes).
fn tiny_elf(machine: u16, code: &[u8]) -> Vec<u8> {
    elf_with_main_at(machine, code, 0x1000)
}

/// As `tiny_elf`, with `main`'s symbol value given.
fn elf_with_main_at(machine: u16, code: &[u8], main_value: u64) -> Vec<u8> {
    build_elf(machine, code, main_value, code.len() as u64)
}

/// As `tiny_elf`, with `main`'s symbol value and the size recorded for the code section.
fn build_elf(machine: u16, code: &[u8], main_value: u64, text_size: u64) -> Vec<u8> {
    let shstrtab: &[u8] = b"\0.text\0.symtab\0.strtab\0.shstrtab\0";
    let strtab: &[u8] = b"\0main\0_Z3foov\0";
    let text_off = 64u64;
    let sym_off = text_off + code.len() as u64;
    let sym_size = 3 * 24u64;
    let str_off = sym_off + sym_size;
    let shstr_off = str_off + strtab.len() as u64;
    let sh_off = shstr_off + shstrtab.len() as u64;

    let mut v = Vec::new();
    v.extend_from_slice(&[0x7f, b'E', b'L', b'F', 2, 1, 1, 0]);
    v.extend_from_slice(&[0; 8]);
    push_u16(&mut v, 2);
    push_u16(&mut v, machine);
    push_u32(&mut v, 1);
    push_u64(&mut v, 0x1000);
    push_u64(&mut v, 0);
    push_u64(&mut v, sh_off);
    push_u32(&mut v, 0);
    push_u16(&mut v, 64);
    push_u16(&mut v, 56);
    push_u16(&mut v, 0);
    push_u16(&mut v, 64);
    push_u16(&mut v, 5);
    push_u16(&mut v, 4);
    assert_eq!(v.len(), 64);
    v.extend_from_slice(code);
    symbol(&mut v, 0, 0, 0, 0, 0);
    symbol(&mut v, 1, 0x12, 1, main_value, 4);
    symbol(&mut v, 6, 0x12, 1, 0x1004, 4);
    v.extend_from_slice(strtab);
    v.extend_from_slice(shstrtab);
    section_header(&mut v, 0, 0, 0, 0, 0, 0, 0, 0, 0, 0);
    section_header(&mut v, 1, 1, 6, 0x1000, text_off, text_size, 0, 0, 4, 0);
    section_header(&mut v, 7, 2, 0, 0, sym_off, sym_size, 3, 1, 8, 24);
    section_header(&mut v, 15, 3, 0, 0, str_off, strtab.len() as u64, 0, 0, 1, 0);
    section_header(&mut v, 23, 3, 0, 0, shstr_off, shstrtab.len() as u64, 0, 0, 1, 0);
    v
}

const AARCH64_CODE: [u8; 8] = [0x1f, 0x20, 0x03, 0xd5, 0xc0, 0x03, 0x5f, 0xd6];

fn cli() -> Cli {
    Cli {
        elf: "prog.elf".to_string(),
        function: None,
        no_dwarf: false,
        no_demangle: false,
        remap: vec![],
        log_level: LogLevel::Info,
        context: "3".to_string(),
        dump: false,
    }
}

fn units() -> Vec<UnitLines> {
    vec![UnitLines {
        comp_dir: Some("/src".to_string()),
        include_dirs: vec![],
        rows: vec![
            LineRowInfo { address: 0x1000, end_sequence: false, line: Some(3), file: Some(FileRef { directory_index: 0, path_name: Some("main.c".to_string()) }) },
            LineRowInfo { address: 0x1008, end_sequence: true, line: Some(4), file: Some(FileRef { directory_index: 0, path_name: Some("main.c".to_string()) }) },
        ],
    }]
}

#[test]
fn elf_parse_rejects_garbage() {
    assert!(matches!(ElfImage::parse(b"not an elf"), Err(AnnotateError::ElfParse)));
}

#[test]
fn elf_lists_functions_by_address() {
    let bytes = tiny_elf(183, &AARCH64_CODE);
    let elf = ElfImage::parse(&bytes).unwrap();
    let fs = list_functions(&elf);
    assert_eq!(fs.len(), 2);
    assert_eq!((fs[0].name.as_str(), fs[0].addr, fs[0].size), ("main", 0x1000, 4));
    assert_eq!((fs[1].name.as_str(), fs[1].addr, fs[1].size), ("_Z3foov", 0x1004, 4));
    let backend = GoblinElfBackend;
    assert_eq!(backend.list_functions(&bytes).unwrap().len(), 2);
}

#[test]
fn elf_function_bounds() {
    let bytes = tiny_elf(183, &AARCH64_CODE);
    let backend = GoblinElfBackend;
    assert_eq!(backend.get_function_bounds(&bytes, "_Z3foov").unwrap(), (0x1004, 0x1008));
    assert!(matches!(backend.get_function_bounds(&bytes, "nope"), Err(AnnotateError::FunctionNotFound { .. })));
}

#[test]
fn elf_symbol_at_address() {
    let bytes = tiny_elf(183, &AARCH64_CODE);
    let elf = ElfImage::parse(&bytes).unwrap();
    assert_eq!(get_symbol_at(&elf, 0x1004).unwrap(), Some("_Z3foov".to_string()));
    assert_eq!(get_symbol_at(&elf, 0x1002).unwrap(), Some("main".to_string()));
    assert_eq!(get_symbol_at(&elf, 0x2000).unwrap(), None);
}

#[test]
fn disassemble_aarch64_range() {
    let bytes = tiny_elf(183, &AARCH64_CODE);
    let insts = disassemble_range(&bytes, 0x1000, 0x1008).unwrap();
    assert_eq!(insts.len(), 2);
    assert_eq!(insts[0].address, 0x1000);
    assert_eq!(insts[0].bytes, "1f 20 03 d5");
    assert_eq!(insts[0].mnemonic, "nop");
    assert_eq!(insts[1].address, 0x1004);
    assert_eq!(insts[1].mnemonic, "ret");
}

#[test]
fn disassemble_errors() {
    let bytes = tiny_elf(183, &AARCH64_CODE);
    assert!(matches!(disassemble_range(&bytes, 0x2000, 0x2004), Err(AnnotateError::NoExecutableSection { .. })));
    let x86 = tiny_elf(62, &AARCH64_CODE);
    assert!(matches!(disassemble_range(&x86, 0x1000, 0x1004), Err(AnnotateError::CapstoneInit)));
    let riscv = tiny_elf(243, &AARCH64_CODE);
    assert!(matches!(disassemble_range(&riscv, 0x1000, 0x1004), Err(AnnotateError::UnsupportedArchitecture { machine: 243 })));
}

#[test]
fn load_and_dump_annotation() {
    let bytes = tiny_elf(183, &AARCH64_CODE);
    let data: AnnotationData = annotation_from_tables(&cli(), &bytes, &Ok(units()), "main").unwrap();
    assert_eq!(data.display_name, "main");
    assert_eq!(data.display_items.len(), 1);
    assert_eq!(data.display_items[0].instruction.mnemonic, "nop");
    let src = data.display_items[0].source.as_ref().unwrap();
    assert_eq!((src.file.as_str(), src.line), ("/src/main.c", 3));

    let mut data = data;
    data.source_reader.add_source("/src/main.c", "a\nb\n  int x = 1;  \n".as_bytes());
    let (lines, err) = dump_annotation(&data);
    assert!(err.is_none());
    assert_eq!(lines[0], "; function: main [main.c]");
    assert_eq!(lines[1], format!("1000  {:<40}; main.c:3: int x = 1;", "nop"));
}

#[test]
fn load_reports_errors_in_order() {
    let bytes = tiny_elf(183, &AARCH64_CODE);
    let mut odd = cli();
    odd.remap = vec!["a".to_string()];
    assert!(matches!(annotation_from_tables(&odd, &bytes, &Ok(units()), "main"), Err(AnnotateError::InvalidRemap)));
    assert!(matches!(annotation_from_tables(&cli(), b"junk", &Ok(units()), "main"), Err(AnnotateError::ElfParse)));
    assert!(matches!(annotation_from_tables(&cli(), &bytes, &Ok(units()), "zzz"), Err(AnnotateError::FunctionNotFound { .. })));
    let dwarf_err = Err(AnnotateError::Dwarf { message: "bad".to_string() });
    assert_eq!(annotation_from_tables(&cli(), &bytes, &dwarf_err, "main").err(), Some(AnnotateError::Dwarf { message: "bad".to_string() }));
}

#[test]
fn demangled_display_name() {
    let bytes = tiny_elf(183, &AARCH64_CODE);
    let data = load_annotation_data(&cli(), &bytes, "_Z3foov").unwrap();
    assert_eq!(data.display_name, "foo()");
    assert_eq!(data.display_items[0].source, None);
    let mut plain = cli();
    plain.no_demangle = true;
    let data = load_annotation_data(&plain, &bytes, "_Z3foov").unwrap();
    assert_eq!(data.display_name, "_Z3foov");
}

#[test]
fn thumb_function_disassembles_in_thumb_mode() {
    // nop; bx lr (Thumb), then padding.
    let code = [0x00, 0xbf, 0x70, 0x47, 0x00, 0xbf, 0x00, 0xbf];
    let bytes = elf_with_main_at(40, &code, 0x1001);
    let backend = GoblinElfBackend;
    assert_eq!(backend.get_function_bounds(&bytes, "main").unwrap(), (0x1000, 0x1004));
    let insts = disassemble_range(&bytes, 0x1000, 0x1004).unwrap();
    assert_eq!(insts.len(), 2);
    assert_eq!(insts[0].mnemonic, "nop");
    assert_eq!(insts[1].mnemonic, "bx lr");
    assert_eq!(insts[1].bytes, "70 47");
}

#[test]
fn branch_targets_are_named_and_demangled() {
    // b 0x1004; ret
    let code = [0x01, 0x00, 0x00, 0x14, 0xc0, 0x03, 0x5f, 0xd6];
    let bytes = tiny_elf(183, &code);
    let insts = disassemble_range(&bytes, 0x1000, 0x1004).unwrap();
    assert_eq!(insts[0].mnemonic, "b #0x1004  ; <_Z3foov>");
    let data = load_annotation_data(&cli(), &bytes, "main").unwrap();
    assert_eq!(data.display_items[0].instruction.mnemonic, "b #0x1004  ; <foo()>");
    let mut plain = cli();
    plain.no_demangle = true;
    let data = load_annotation_data(&plain, &bytes, "main").unwrap();
    assert_eq!(data.display_items[0].instruction.mnemonic, "b #0x1004  ; <_Z3foov>");
}

#[test]
fn function_range_overflow() {
    let bytes = elf_with_main_at(183, &AARCH64_CODE, 0xffff_ffff_ffff_fffe);
    let backend = GoblinElfBackend;
    assert!(matches!(backend.get_function_bounds(&bytes, "main"), Err(AnnotateError::FunctionRangeOverflow { .. })));
}

#[test]
fn section_past_end_of_file() {
    let bytes = build_elf(183, &AARCH64_CODE, 0x1000, 0x10000);
    assert!(matches!(disassemble_range(&bytes, 0x1000, 0x1004), Err(AnnotateError::SectionOutOfBounds { .. })));
}

#[test]
fn code_range_errors() {
    let data = [1u8, 2, 3, 4];
    assert_eq!(extract_code_range(&data, 0x100, 0x101, 0x103).unwrap(), &[2, 3]);
    assert!(matches!(extract_code_range(&data, 0x100, 0xff, 0x101), Err(AnnotateError::StartBeforeSection { .. })));
    assert!(matches!(extract_code_range(&data, 0x100, 0x102, 0x105), Err(AnnotateError::RangeExceedsSection { .. })));
}

#[test]
fn line_zero_row_has_no_location() {
    let u = &units()[0];
    let row = LineRowInfo { address: 0x1004, end_sequence: false, line: Some(0), file: Some(FileRef { directory_index: 0, path_name: Some("main.c".to_string()) }) };
    assert!(source_location(u, &row).is_none());
    let loc = source_location(u, &u.rows[0]).unwrap();
    assert_eq!((loc.file.as_str(), loc.line), ("/src/main.c", 3));
}

#[test]
fn line_tables_of_a_file_without_dwarf() {
    let bytes = tiny_elf(183, &AARCH64_CODE);
    assert_eq!(read_line_tables(&bytes).unwrap().len(), 0);
    assert!(matches!(read_line_tables(b"junk"), Err(AnnotateError::ElfParse)));
    let mut odd = cli();
    odd.remap = vec!["a".to_string()];
    assert!(matches!(load_annotation_data(&odd, &bytes, "main"), Err(AnnotateError::InvalidRemap)));
    assert!(matches!(load_annotation_data(&cli(), b"junk", "main"), Err(AnnotateError::ElfParse)));
    assert!(matches!(load_annotation_data(&cli(), &bytes, "zzz"), Err(AnnotateError::FunctionNotFound { .. })));
    let data = load_annotation_data(&cli(), &bytes, "main").unwrap();
    assert_eq!(data.display_items.len(), 1);
    assert_eq!(data.display_items[0].source, None);
}
