use asm_annotate::demangle::{apply_demangling, extract_mangled_symbols, CppDemangleBackend, DemangleMap, DemanglerBackend};
use asm_annotate::types::Instruction;

fn make_inst(address: u64, mnemonic: &str) -> Instruction {
    Instruction { address, bytes: "".to_string(), mnemonic: mnemonic.to_string() }
}

#[test]
fn test_demangle_basic() {
    let backend = CppDemangleBackend;
    assert_eq!(backend.demangle("_Z3foov").unwrap(), "foo()");
    assert_eq!(backend.demangle("_Z3bariz").unwrap(), "bar(int, ...)");
}

#[test]
fn test_demangle_not_mangled() {
    let backend = CppDemangleBackend;
    assert!(backend.demangle("not_mangled").is_err());
}

#[test]
fn demangle_error_variant() {
    let backend = CppDemangleBackend;
    assert!(matches!(
        backend.demangle("not_mangled"),
        Err(asm_annotate::error::AnnotateError::DemangleSymbol) | Err(asm_annotate::error::AnnotateError::DemangleFormat)
    ));
}

#[test]
fn test_apply_demangling() {
    let mut instructions = vec![
        Instruction { address: 0x1000, bytes: "C3".to_string(), mnemonic: "ret".to_string() },
        Instruction { address: 0x1001, bytes: "E8 00000000".to_string(), mnemonic: "call _Z3foov".to_string() },
    ];
    let mut demangled_map = DemangleMap::new();
    demangled_map.insert("_Z3foov".to_string(), "foo()".to_string());
    demangled_map.insert("_Z3bariz".to_string(), "bar(int, ...)".to_string());

    apply_demangling(&mut instructions, &demangled_map);

    assert_eq!(instructions[0].mnemonic, "ret");
    assert_eq!(instructions[1].mnemonic, "call foo()");
}

#[test]
fn test_extract_mangled_symbols() {
    let instructions = vec![
        make_inst(0x1000, "call _Z6foobarv"),
        make_inst(0x1004, "jmp  _Z3bazi"),
        make_inst(0x1008, "mov  eax, [_Z7dataVAR]"),
        make_inst(0x100c, "add  ebx, 1 ; <_Z9somethingv>"),
        make_inst(0x1010, "sub  ecx, ecx ; <not_mangled>"),
        make_inst(0x1014, "call _Z6foobarv"),
        make_inst(0x1018, "lea  rdi, [rip + _ZN1A1B1CEv]"),
    ];

    let expected = vec![
        "_Z3bazi".to_string(),
        "_Z6foobarv".to_string(),
        "_Z7dataVAR".to_string(),
        "_Z9somethingv".to_string(),
        "_ZN1A1B1CEv".to_string(),
    ];
    let mut result = extract_mangled_symbols(&instructions);
    result.sort();
    assert_eq!(result, expected);
}

#[test]
fn test_extract_mangled_symbols_empty() {
    let instructions = vec![make_inst(0x1000, "nop")];
    let result = extract_mangled_symbols(&instructions);
    assert!(result.is_empty());
}

#[test]
fn extract_comment_symbol_without_regex_match() {
    // The comment form is taken as a whole, up to the closing bracket.
    let instructions = vec![make_inst(0x1000, "b 0x10 ; <_Z1fv>")];
    assert_eq!(extract_mangled_symbols(&instructions), vec!["_Z1fv".to_string()]);
}

#[test]
fn extract_results_sorted_without_sorting() {
    let instructions = vec![make_inst(0, "call _Zb"), make_inst(4, "call _Za"), make_inst(8, "call _Zb")];
    assert_eq!(extract_mangled_symbols(&instructions), vec!["_Za".to_string(), "_Zb".to_string()]);
}

#[test]
fn demangle_batch_keeps_only_mangled_names() {
    let backend = CppDemangleBackend;
    let names = vec!["_Z3foov".to_string(), "plain".to_string(), "_Z3foov".to_string()];
    let map = backend.demangle_batch(&names).unwrap();
    assert_eq!(map.len(), 1);
    assert_eq!(map.get("_Z3foov"), Some("foo()".to_string()));
    assert_eq!(map.get("plain"), None);
}

#[test]
fn demangle_map_insert_replaces_value() {
    let mut map = DemangleMap::new();
    assert!(map.is_empty());
    map.insert("a".to_string(), "1".to_string());
    map.insert("a".to_string(), "2".to_string());
    assert_eq!(map.len(), 1);
    assert_eq!(map.get("a"), Some("2".to_string()));
}

#[test]
fn apply_demangling_replaces_every_occurrence() {
    let mut instructions = vec![make_inst(0, "x _Z3foov _Z3foov")];
    let mut map = DemangleMap::new();
    map.insert("_Z3foov".to_string(), "foo()".to_string());
    apply_demangling(&mut instructions, &map);
    assert_eq!(instructions[0].mnemonic, "x foo() foo()");
    assert_eq!(instructions[0].address, 0);
}
