use asm_annotate::annotate::{choose_function, display_name, files_to_load, AnnotationData, FunctionChoice};
use asm_annotate::elf::FunctionInfo;
use asm_annotate::error::AnnotateError;
use asm_annotate::listing::{list_row, picked_function, picker_entries, picker_entry};
use asm_annotate::source_reader::SourceReader;
use asm_annotate::types::{Color, DisplayItem, Instruction, SourceLocation};

fn func(name: &str, addr: u64, size: u64) -> FunctionInfo {
    FunctionInfo { name: name.to_string(), addr, size }
}

#[test]
fn choose_function_cases() {
    assert!(matches!(choose_function(vec![], "x"), Err(AnnotateError::NoFunctions)));
    let fs = vec![func("alpha", 0x10, 4), func("beta", 0x20, 8), func("alphabet", 0x30, 2)];
    match choose_function(fs.clone(), "beta").unwrap() {
        FunctionChoice::Selected(f) => assert_eq!(f.name, "beta"),
        _ => panic!("expected a selection"),
    }
    match choose_function(fs.clone(), "alpha").unwrap() {
        FunctionChoice::Pick(v) => assert_eq!(v.len(), 2),
        _ => panic!("expected candidates"),
    }
    match choose_function(fs.clone(), "").unwrap() {
        FunctionChoice::Pick(v) => assert_eq!(v.len(), 3),
        _ => panic!("expected candidates"),
    }
    assert_eq!(
        choose_function(fs, "gamma").err(),
        Some(AnnotateError::NoMatchingFunction { name: "gamma".to_string() })
    );
    match choose_function(vec![func("only", 0, 1)], "").unwrap() {
        FunctionChoice::Pick(v) => assert_eq!(v.len(), 1),
        _ => panic!("without a name the user picks"),
    }
}

#[test]
fn display_names() {
    assert_eq!(display_name(false, "_Z3foov"), "foo()");
    assert_eq!(display_name(true, "_Z3foov"), "_Z3foov");
    assert_eq!(display_name(false, "main"), "main");
}

#[test]
fn picker_entry_texts() {
    assert_eq!(picker_entry(&func("_Z3foov", 0x1000, 12)), "foo()  [_Z3foov] (12) 0x1000");
    assert_eq!(picker_entry(&func("main", 0xab, 0)), "main (0) 0xab");
    assert_eq!(picker_entries(&[func("main", 1, 2), func("init", 3, 4)]), vec!["main (2) 0x1".to_string(), "init (4) 0x3".to_string()]);
    // A one-letter name is a builtin type in the mangling grammar.
    assert_eq!(picker_entry(&func("a", 1, 2)), "signed char  [a] (2) 0x1");
}

#[test]
fn picked_function_result() {
    let fs = vec![func("a", 1, 2), func("b", 3, 4)];
    assert_eq!(picked_function(fs.clone(), Some(1)).unwrap().name, "b");
    assert!(matches!(picked_function(fs.clone(), None), Err(AnnotateError::NoFunctionSelected)));
    assert!(matches!(picked_function(fs, Some(5)), Err(AnnotateError::NoFunctionSelected)));
}

#[test]
fn list_rows() {
    assert_eq!(list_row(&func("main", 0x10, 4), false), format!("{:<#12x} {:<10} {:<30} {}", 0x10, 4, "main", ""));
    assert_eq!(list_row(&func("_Z3foov", 0x20, 8), false), format!("{:<#12x} {:<10} {:<30} {}", 0x20, 8, "_Z3foov", "foo()"));
    assert_eq!(list_row(&func("_Z3foov", 0x20, 8), true), format!("{:<#12x} {:<10} {:<30} {}", 0x20, 8, "_Z3foov", ""));
}

fn item(address: u64, file: Option<&str>, line: usize) -> DisplayItem {
    DisplayItem {
        instruction: Instruction { address, bytes: String::new(), mnemonic: "nop".to_string() },
        source: file.map(|f| SourceLocation { file: f.to_string(), line }),
        color: Color::White,
    }
}

#[test]
fn files_to_load_sorted_unique_remapped() {
    let reader = SourceReader::new(&vec!["/build".to_string(), "/home".to_string()]).unwrap();
    let data = AnnotationData {
        display_items: vec![item(0, Some("/build/b.c"), 1), item(1, None, 0), item(2, Some("/a.c"), 2), item(3, Some("/build/b.c"), 5)],
        source_reader: reader,
        display_name: "f".to_string(),
    };
    assert_eq!(files_to_load(&data), vec!["/a.c".to_string(), "/home/b.c".to_string()]);
}
