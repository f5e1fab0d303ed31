use asm_annotate::annotate::AnnotationData;
use asm_annotate::cli::{Cli, LogLevel};
use asm_annotate::error::AnnotateError;
use asm_annotate::ranges::compute_context_ranges;
use asm_annotate::source_reader::SourceReader;
use asm_annotate::source_view::build_source_view;
use asm_annotate::tui_state::{KeyCode, KeyInput, KeyOutcome};
use asm_annotate::types::{Color, DisplayItem, Instruction, SourceItem, SourceLocation};
use asm_annotate::viewer::{AppState, PanelRow};

fn item(address: u64, bytes: &str, file: &str, line: usize, color: Color) -> DisplayItem {
    DisplayItem {
        instruction: Instruction { address, bytes: bytes.to_string(), mnemonic: "add r0, r1".to_string() },
        source: Some(SourceLocation { file: file.to_string(), line }),
        color,
    }
}

fn cli(context: &str) -> Cli {
    Cli {
        elf: "p.elf".to_string(),
        function: None,
        no_dwarf: false,
        no_demangle: false,
        remap: vec![],
        log_level: LogLevel::Info,
        context: context.to_string(),
        dump: false,
    }
}

fn data() -> AnnotationData {
    let mut reader = SourceReader::default();
    reader.add_source("/x/f.c", "l1\nl2\nl3\nl4\nl5\nl6\nl7\nl8\nl9\nl10\nl11\nl12".as_bytes());
    AnnotationData {
        display_items: vec![item(0x100, "01 02", "/x/f.c", 2, Color::Red), item(0x104, "", "/x/f.c", 10, Color::Blue)],
        source_reader: reader,
        display_name: "fn".to_string(),
    }
}

#[test]
fn context_ranges_merge_and_split() {
    assert_eq!(compute_context_ranges(&[2, 10], 1, 1), vec![(1, 3), (9, 11)]);
    assert_eq!(compute_context_ranges(&[2, 5], 1, 1), vec![(1, 6)]);
    assert_eq!(compute_context_ranges(&[2, 7], 3, 1), vec![(1, 3), (6, 10)]);
    assert!(compute_context_ranges(&[], 3, 1).is_empty());
}

#[test]
fn context_two_to_five_blocks() {
    // 2 lines before/after, 5 between blocks: the first block runs to p + 5,
    // the second starts at q - 5.
    assert_eq!(compute_context_ranges(&[10, 30], 2, 5), vec![(8, 15), (25, 32)]);
}

#[test]
fn source_view_groups_files() {
    let d = data();
    let v = build_source_view(&d.display_items, &d.source_reader, 1, 1);
    // header, 1..=3, gap, 9..=11
    assert_eq!(v.len(), 1 + 3 + 1 + 3);
    assert!(matches!(&v[0], SourceItem::FileHeader { path } if path == "/x/f.c"));
    assert!(matches!(&v[2], SourceItem::Line { number: 2, text, color: Some(Color::Red), is_main: true } if text == "l2"));
    assert!(matches!(&v[1], SourceItem::Line { number: 1, color: None, is_main: false, .. }));
    assert!(matches!(&v[4], SourceItem::Gap));
    assert!(matches!(&v[7], SourceItem::Line { number: 11, .. }));
}

#[test]
fn app_state_builds_panes() {
    let st = AppState::new(&cli("1"), "fn", data()).unwrap();
    assert_eq!(st.display_name(), "fn");
    assert_eq!(st.context_amounts(), (1, 1));
    let rows = st.source_rows(30);
    assert_eq!(rows.len(), 8);
    assert!(matches!(&rows[0], PanelRow::Header(t) if t == "-- /x/f.c --"));
    let narrow = st.source_rows(12);
    assert!(matches!(&narrow[0], PanelRow::Header(t) if t == "-- …f.c --"));
    let rows_of_asm = st.asm_lines();
    assert_eq!(rows_of_asm[0].address, "    00000100  ");
    assert_eq!(rows_of_asm[0].bytes, format!("{:<16}  ", "01 02"));
    assert_eq!(rows_of_asm[1].bytes, "");
    assert_eq!(rows_of_asm[1].color, Color::Blue);
}

#[test]
fn app_state_rejects_bad_context() {
    assert!(AppState::new(&cli("x"), "fn", data()).is_err());
}

#[test]
fn app_state_keys_and_reload() {
    let mut st = AppState::new(&cli("2:1"), "fn", data()).unwrap();
    let q = KeyInput { code: KeyCode::Char('q'), shift: false, control: false, other_modifiers: false };
    let tab = KeyInput { code: KeyCode::Tab, shift: false, control: false, other_modifiers: false };
    assert_eq!(st.handle_key(tab), KeyOutcome::Continue);
    let before = st.view();
    st.update_data(data());
    assert_eq!(st.view(), before);
    assert_eq!(st.handle_key(q), KeyOutcome::Quit);
}

#[test]
fn app_state_reload_failure_keeps_state() {
    let mut st = AppState::new(&cli("1"), "fn", data()).unwrap();
    let rows_before = st.source_rows(30).len();
    let err = st.apply_reload(Err(AnnotateError::ElfParse));
    assert!(matches!(err, Some(AnnotateError::ElfParse)));
    assert_eq!(st.source_rows(30).len(), rows_before);
    assert_eq!(st.display_name(), "fn");
    assert!(st.apply_reload(Ok(data())).is_none());
    assert_eq!(st.source_rows(30).len(), rows_before);
}
