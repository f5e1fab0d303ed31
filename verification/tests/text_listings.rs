use asm_annotate::render::{Span, SpanStyle};
use asm_annotate::text_listings::{compute_source_width, ItemSource, SplitLine, SplitRenderer, UnifiedRenderer};
use asm_annotate::types::{Color, DisplayItem, Instruction, SourceLocation};

fn item(address: u64, mnemonic: &str, source: Option<(&str, usize)>, color: Color) -> DisplayItem {
    DisplayItem {
        instruction: Instruction { address, bytes: "1f 20 03 d5".to_string(), mnemonic: mnemonic.to_string() },
        source: source.map(|(f, l)| SourceLocation { file: f.to_string(), line: l }),
        color,
    }
}

fn src(text: Option<&str>, new_line: bool, new_file: bool) -> ItemSource {
    ItemSource { source_text: text.map(|t| t.to_string()), is_new_line: new_line, is_new_file: new_file }
}

fn pieces(spans: &[Span]) -> Vec<(String, SpanStyle)> {
    spans.iter().map(|s| (s.text.clone(), s.style)).collect()
}

fn p(t: &str, s: SpanStyle) -> (String, SpanStyle) {
    (t.to_string(), s)
}

#[test]
fn source_width_fits_the_widest_line() {
    let short = vec![src(Some("abc"), true, true), src(None, false, false)];
    assert_eq!(compute_source_width(&short, 200), 20);
    let wide = vec![src(Some(&"x".repeat(30)), true, true)];
    assert_eq!(compute_source_width(&wide, 200), 38);
    assert_eq!(compute_source_width(&wide, 80), 27);
    assert_eq!(compute_source_width(&wide, 10), 20);
    assert_eq!(compute_source_width(&[], 200), 20);
}

#[test]
fn unified_lines_show_location_and_text() {
    let items = vec![item(0x1000, "nop", Some(("/a/b/c/main.c", 3)), Color::Red), item(0x1004, "ret", Some(("/a/b/c/main.c", 3)), Color::Red)];
    let sources = vec![src(Some("int x;"), true, true), src(Some("int x;"), false, false)];
    let lines = UnifiedRenderer { show_bytes: false }.render_lines(&items, &sources).unwrap();
    assert_eq!(lines.len(), 4);
    assert_eq!(pieces(&lines[0]), vec![p("  ", SpanStyle::Plain), p("<…/b/c/main.c:3>", SpanStyle::DimmedItalic)]);
    assert_eq!(
        pieces(&lines[1]),
        vec![
            p("  ", SpanStyle::Plain),
            p("▶ ", SpanStyle::BoldColor(Color::Red)),
            p("int x;", SpanStyle::Colored(Color::Red)),
            p("", SpanStyle::Colored(Color::White)),
        ]
    );
    assert_eq!(
        pieces(&lines[2]),
        vec![
            p("    00001000  ", SpanStyle::Plain),
            p("", SpanStyle::BytesDim),
            p("nop", SpanStyle::BoldColor(Color::Red)),
            p("", SpanStyle::Colored(Color::White)),
        ]
    );
    assert_eq!(pieces(&lines[3])[2], p("ret", SpanStyle::BoldColor(Color::Red)));
}

#[test]
fn split_lines_group_runs() {
    let items = vec![
        item(0x1000, "nop", Some(("main.c", 3)), Color::Red),
        item(0x1004, "ret", Some(("main.c", 3)), Color::Blue),
        item(0x1008, "b", Some(("main.c", 4)), Color::Green),
        item(0x100c, "x", None, Color::Cyan),
    ];
    let sources = vec![src(Some("int x;"), true, true), src(None, false, false), src(None, true, false), src(None, false, false)];
    let r = SplitRenderer { show_bytes: false, source_width: 30, asm_width: 60 };
    let lines = r.render_lines(&items, &sources).unwrap();
    assert_eq!(lines.len(), 5);
    match &lines[0] {
        SplitLine::Header(h) => assert_eq!(
            pieces(h),
            vec![p("-- ", SpanStyle::Plain), p("main.c", SpanStyle::DimmedItalic), p(" --", SpanStyle::Plain)]
        ),
        _ => panic!("expected a header"),
    }
    match &lines[1] {
        SplitLine::Row(row) => {
            assert_eq!(
                pieces(&row.source),
                vec![
                    p("   3:", SpanStyle::Dimmed),
                    p(" ", SpanStyle::Plain),
                    p("▶ ", SpanStyle::BoldColor(Color::Red)),
                    p(" ", SpanStyle::Plain),
                    p("int x;", SpanStyle::Colored(Color::Red)),
                ]
            );
            assert_eq!(row.padding, 30 - 15);
            assert_eq!(pieces(&row.instruction)[2], p("nop", SpanStyle::BoldColor(Color::Red)));
        }
        _ => panic!("expected a row"),
    }
    match &lines[2] {
        SplitLine::Row(row) => {
            assert!(row.source.is_empty());
            assert_eq!(row.padding, 30);
            // The run keeps its first color.
            assert_eq!(pieces(&row.instruction)[2], p("ret", SpanStyle::BoldColor(Color::Red)));
        }
        _ => panic!("expected a row"),
    }
    match &lines[3] {
        SplitLine::Row(row) => {
            assert_eq!(pieces(&row.source)[4], p("?", SpanStyle::Colored(Color::Green)));
            assert_eq!(pieces(&row.instruction)[2], p("b", SpanStyle::BoldColor(Color::Green)));
        }
        _ => panic!("expected a row"),
    }
    match &lines[4] {
        SplitLine::Row(row) => {
            assert!(row.source.is_empty());
            assert_eq!(pieces(&row.instruction)[2], p("x", SpanStyle::BoldColor(Color::Cyan)));
        }
        _ => panic!("expected a row"),
    }
}

#[test]
fn split_cuts_long_source_text() {
    let items = vec![item(0x1000, "nop", Some(("main.c", 3)), Color::Red)];
    let sources = vec![src(Some("abcdefghijklmnop"), true, true)];
    // 20 columns less 5 (number), 2 (marker) and 2 spaces leave 11.
    let r = SplitRenderer { show_bytes: false, source_width: 20, asm_width: 60 };
    let lines = r.render_lines(&items, &sources).unwrap();
    match &lines[1] {
        SplitLine::Row(row) => assert_eq!(pieces(&row.source)[4], p("abcdefghij…", SpanStyle::Colored(Color::Red))),
        _ => panic!("expected a row"),
    }
}
