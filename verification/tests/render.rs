use asm_annotate::render::{header_totals, strip_ansi, truncate_to_width, SideBySideRenderer, SpanStyle};
use asm_annotate::source_reader::SourceReader;
use asm_annotate::types::{Color, DisplayItem, Instruction, SourceLocation};

#[test]
fn test_strip_ansi_removes_color_codes() {
    assert_eq!(strip_ansi("\x1B[31mRed\x1B[0m"), "Red");
    assert_eq!(strip_ansi("\x1B[1;32mBold Green\x1B[0m text"), "Bold Green text");
}

#[test]
fn test_strip_ansi_passthrough() {
    assert_eq!(strip_ansi("no escape codes"), "no escape codes");
    assert_eq!(strip_ansi(""), "");
}

#[test]
fn strip_ansi_keeps_unfinished_sequences() {
    assert_eq!(strip_ansi("a\x1B[12"), "a\x1B[12");
    assert_eq!(strip_ansi("\x1Bx"), "\x1Bx");
    assert_eq!(strip_ansi("\x1B[ !Kz"), "z");
}

#[test]
fn truncate_to_width_fits_unchanged() {
    assert_eq!(truncate_to_width("hello", 5), "hello");
    assert_eq!(truncate_to_width("", 0), "");
}

#[test]
fn truncate_to_width_cuts_with_ellipsis() {
    assert_eq!(truncate_to_width("hello world", 6), "hello…");
    assert_eq!(truncate_to_width("hello", 1), "…");
    assert_eq!(truncate_to_width("日本語", 4), "日…");
}

#[test]
fn truncate_to_width_never_exceeds_width() {
    assert_eq!(truncate_to_width("hello", 0), "");
    assert_eq!(truncate_to_width("日本語", 2), "…");
    assert_eq!(truncate_to_width("日本語", 3), "日…");
}

fn item(address: u64, bytes: &str, mnemonic: &str, source: Option<SourceLocation>, color: Color) -> DisplayItem {
    DisplayItem {
        instruction: Instruction { address, bytes: bytes.to_string(), mnemonic: mnemonic.to_string() },
        source,
        color,
    }
}

#[test]
fn header_totals_count_bytes() {
    let items = vec![
        item(0, "1f 20 03 d5", "nop", None, Color::White),
        item(4, "c0035fd6", "ret", None, Color::White),
        item(8, "", "x", None, Color::White),
    ];
    assert_eq!(header_totals(&items), Some((3, 8)));
}

#[test]
fn side_by_side_rows_layout() {
    let src = SourceLocation { file: "/a/b/c/d.c".to_string(), line: 2 };
    let items = vec![
        item(0x10, "ab", "nop", Some(src.clone()), Color::Red),
        item(0x14, "", "ret", Some(src), Color::Red),
    ];
    let mut reader = SourceReader::default();
    reader.add_source("/a/b/c/d.c", "one\ntwo\nthree".as_bytes());
    let r = SideBySideRenderer { show_bytes: true, context_lines: 1, source_width: 20, asm_width: 40 };
    let rows = r.render_rows(&items, &reader).unwrap();
    // header, lines 1..=3
    assert_eq!(rows.len(), 4);
    let texts: Vec<String> = rows[0].source.iter().map(|s| s.text.clone()).collect();
    assert_eq!(texts.concat(), "-- …/b/c/d.c --");
    assert_eq!(rows[0].padding, 20 - 15);
    let line2: Vec<String> = rows[2].source.iter().map(|s| s.text.clone()).collect();
    assert_eq!(line2.concat(), "   2: ▶ two");
    assert_eq!(rows[2].source[0].style, SpanStyle::BoldColor(Color::Red));
    let line1: Vec<String> = rows[1].source.iter().map(|s| s.text.clone()).collect();
    assert_eq!(line1.concat(), "   1:   one");
    assert_eq!(rows[1].source[2].style, SpanStyle::Gray);
    let asm0: Vec<String> = rows[0].instruction.iter().map(|s| s.text.clone()).collect();
    assert_eq!(asm0.concat(), format!("    00000010  {:<16}  nop", "ab"));
    assert!(rows[2].instruction.is_empty());
    assert_eq!(rows[3].padding, 20 - "   3:   three".len());
}

#[test]
fn side_by_side_truncates_long_instruction() {
    let items = vec![item(0x10, "", "a_rather_long_instruction_text", None, Color::Blue)];
    let reader = SourceReader::default();
    let r = SideBySideRenderer { show_bytes: false, context_lines: 0, source_width: 10, asm_width: 20 };
    let rows = r.render_rows(&items, &reader).unwrap();
    assert_eq!(rows.len(), 1);
    assert_eq!(rows[0].instruction[0].text, "    00000010  a_rat");
    assert_eq!(rows[0].instruction[1].text, "…");
    assert!(rows[0].source.is_empty());
    assert_eq!(rows[0].padding, 10);
}
