use asm_annotate::annotate::AnnotationData;
use asm_annotate::dump::dump_annotation;
use asm_annotate::error::AnnotateError;
use asm_annotate::source_reader::SourceReader;
use asm_annotate::types::{Color, DisplayItem, Instruction, SourceLocation};

fn item(address: u64, mnemonic: &str, src: Option<(&str, usize)>) -> DisplayItem {
    DisplayItem {
        instruction: Instruction { address, bytes: String::new(), mnemonic: mnemonic.to_string() },
        source: src.map(|(f, l)| SourceLocation { file: f.to_string(), line: l }),
        color: Color::White,
    }
}

#[test]
fn dump_writes_location_only_on_change() {
    let mut reader = SourceReader::default();
    reader.add_source("/p/foo.cpp", "\n\n  if (n <= 0)\n    return n + offset;  \n".as_bytes());
    let data = AnnotationData {
        display_items: vec![
            item(0x1200, "push {r4, lr}", None),
            item(0x1202, "cmp r0, #0", Some(("/p/foo.cpp", 3))),
            item(0x1204, "ble .+14", Some(("/p/foo.cpp", 3))),
            item(0x1206, "add r4, r0, r1", Some(("/p/foo.cpp", 4))),
            item(0x1208, "mov r0, r4", Some(("/p/foo.cpp", 9))),
            item(0x120a, "pop {pc}", None),
        ],
        source_reader: reader,
        display_name: "MyClass::compute(int)".to_string(),
    };
    let (lines, failure) = dump_annotation(&data);
    assert!(failure.is_none());
    assert_eq!(
        lines,
        vec![
            "; function: MyClass::compute(int) [foo.cpp]".to_string(),
            "1200  push {r4, lr}".to_string(),
            format!("1202  {:<40}; foo.cpp:3: if (n <= 0)", "cmp r0, #0"),
            "1204  ble .+14".to_string(),
            format!("1206  {:<40}; foo.cpp:4: return n + offset;", "add r4, r0, r1"),
            format!("1208  {:<40}; foo.cpp:9", "mov r0, r4"),
            "120a  pop {pc}".to_string(),
        ]
    );
}

#[test]
fn dump_without_sources_has_unknown_file() {
    let data = AnnotationData {
        display_items: vec![item(0x10, "nop", None)],
        source_reader: SourceReader::default(),
        display_name: "f".to_string(),
    };
    let (lines, failure) = dump_annotation(&data);
    assert!(failure.is_none());
    assert_eq!(lines, vec!["; function: f [?]".to_string(), "10  nop".to_string()]);
}

#[test]
fn dump_stops_at_unreadable_line() {
    let mut reader = SourceReader::default();
    reader.add_source("a.c", b"ok\n\xff\n");
    let data = AnnotationData {
        display_items: vec![item(0x10, "nop", Some(("a.c", 1))), item(0x14, "ret", Some(("a.c", 2))), item(0x18, "x", None)],
        source_reader: reader,
        display_name: "f".to_string(),
    };
    let (lines, failure) = dump_annotation(&data);
    assert_eq!(lines.len(), 2);
    assert!(matches!(failure, Some(AnnotateError::SourceRead { line: 2, .. })));
}
