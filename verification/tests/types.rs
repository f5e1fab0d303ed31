use asm_annotate::types::{ui_palette, AnnotatedInstruction, Color, DisplayItem, Instruction, SourceLocation};
use std::collections::HashMap;

fn make_inst(address: u64, mnemonic: &str) -> Instruction {
    Instruction { address, bytes: "".to_string(), mnemonic: mnemonic.to_string() }
}

fn make_src(file: &str, line: usize) -> SourceLocation {
    SourceLocation { file: file.to_string(), line }
}

#[test]
fn test_annotated_from_many() {
    let instructions = vec![
        make_inst(0x1000, "mov"),
        make_inst(0x1001, "add"),
        make_inst(0x1002, "sub"),
        make_inst(0x1004, "jmp"),
        make_inst(0x1005, "nop"),
    ];

    let mut addr_to_src = HashMap::new();
    addr_to_src.insert(0x1000, make_src("a.c", 10));
    addr_to_src.insert(0x1004, make_src("b.c", 20));

    let annotated = AnnotatedInstruction::from_many(&instructions, &addr_to_src);

    assert_eq!(annotated.len(), 5);
    assert_eq!(annotated[0].source, Some(make_src("a.c", 10)));
    assert_eq!(annotated[1].source, Some(make_src("a.c", 10)));
    assert_eq!(annotated[2].source, Some(make_src("a.c", 10)));
    assert_eq!(annotated[3].source, Some(make_src("b.c", 20)));
    assert_eq!(annotated[4].source, Some(make_src("b.c", 20)));

    let empty_annotated = AnnotatedInstruction::from_many(&[], &addr_to_src);
    assert!(empty_annotated.is_empty());

    let no_src_annotated = AnnotatedInstruction::from_many(&instructions, &HashMap::new());
    for item in no_src_annotated {
        assert_eq!(item.source, None);
    }
}

#[test]
fn test_display_item_from_annotated() {
    let src1 = make_src("a.c", 10);
    let src2 = make_src("b.c", 20);
    let annotated = vec![
        AnnotatedInstruction { instruction: make_inst(0x1000, "nop"), source: None },
        AnnotatedInstruction { instruction: make_inst(0x1001, "mov"), source: Some(src1.clone()) },
        AnnotatedInstruction { instruction: make_inst(0x1002, "add"), source: Some(src1.clone()) },
        AnnotatedInstruction { instruction: make_inst(0x1003, "sub"), source: Some(src2.clone()) },
        AnnotatedInstruction { instruction: make_inst(0x1004, "jmp"), source: None },
    ];

    let display_items = DisplayItem::from_annotated(&annotated).unwrap();

    assert_eq!(display_items.len(), 5);
    assert_eq!(display_items[0].color, Color::White);
    assert_eq!(display_items[4].color, Color::White);
    assert_eq!(display_items[1].color, ui_palette(0));
    assert_eq!(display_items[2].color, ui_palette(0));
    assert_eq!(display_items[3].color, ui_palette(1));
    assert_eq!(display_items[1].instruction.address, 0x1001);
    assert_eq!(display_items[1].source, Some(src1));
}

#[test]
fn palette_first_and_last_colors() {
    assert_eq!(ui_palette(0), Color::TrueColor { r: 31, g: 119, b: 180 });
    assert_eq!(ui_palette(19), Color::TrueColor { r: 158, g: 218, b: 229 });
}

#[test]
fn colors_cycle_after_twenty_locations() {
    let mut annotated = Vec::new();
    for k in 0..21u64 {
        annotated.push(AnnotatedInstruction {
            instruction: make_inst(k, "nop"),
            source: Some(make_src("a.c", k as usize + 1)),
        });
    }
    let items = DisplayItem::from_annotated(&annotated).unwrap();
    assert_eq!(items[19].color, ui_palette(19));
    assert_eq!(items[20].color, ui_palette(0));
}

#[test]
fn same_location_same_color_when_not_adjacent() {
    let a = make_src("a.c", 1);
    let b = make_src("b.c", 2);
    let annotated = vec![
        AnnotatedInstruction { instruction: make_inst(0, "x"), source: Some(a.clone()) },
        AnnotatedInstruction { instruction: make_inst(1, "y"), source: Some(b) },
        AnnotatedInstruction { instruction: make_inst(2, "z"), source: Some(a) },
    ];
    let items = DisplayItem::from_annotated(&annotated).unwrap();
    assert_eq!(items[0].color, items[2].color);
    assert_ne!(items[0].color, items[1].color);
}
