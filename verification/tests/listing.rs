use ue14500_toolkit::data::{Addr, Ctrl, CtrlKind, Inst, InstKind, Node, Nodes, ADDR_POS};
use ue14500_toolkit::formats::assembly::parser::nodes;
use ue14500_toolkit::listing::{
    indent_of, index_width, listing, unindented, NumberFormat, Row, Table,
};

fn word(inst: InstKind, addr: u32, ctrl: CtrlKind) -> Node {
    Node::Word(Inst::from(inst), Addr::from(addr << ADDR_POS), Ctrl::from(ctrl))
}

fn cells(numbers: NumberFormat, index: usize, node: &Node) -> Row {
    let (inst, addr, ctrl) = match node {
        Node::Word(inst, addr, ctrl) => (*inst, *addr, *ctrl),
        Node::Comment(_) => panic!("a comment has no row"),
    };
    match numbers {
        NumberFormat::Bin => Row {
            index,
            inst: format!("0b{:04b}{:>6}", inst.val(), inst.name()),
            addr: format!("0b{:06b}{:>20}", addr.val(), addr.name()),
            ctrl: format!("0b{:02b}{:>20}", ctrl.val(), ctrl.name()),
        },
        NumberFormat::Oct => Row {
            index,
            inst: format!("0o{:02o}{:>7}", inst.val(), inst.name()),
            addr: format!("0o{:02o}{:>20}", addr.val(), addr.name()),
            ctrl: format!("0o{:01o}{:>20}", ctrl.val(), ctrl.name()),
        },
    }
}

#[test]
fn number_format_defaults_to_binary() {
    assert_eq!(NumberFormat::default(), NumberFormat::Bin);
}

#[test]
fn listing_of_nothing_is_one_empty_table() {
    assert_eq!(
        listing(NumberFormat::Bin, &Nodes(vec![])),
        vec![Table::Words(vec![])]
    );
}

#[test]
fn listing_rows_in_binary() {
    let tables = listing(
        NumberFormat::Bin,
        &Nodes(vec![word(InstKind::One, 0o77, CtrlKind::Null)]),
    );
    assert_eq!(
        tables,
        vec![Table::Words(vec![Row {
            index: 0,
            inst: "0b0100   one".to_string(),
            addr: "0b111111  low input / high z".to_string(),
            ctrl: "0b00                null".to_string(),
        }])]
    );
}

#[test]
fn listing_rows_in_octal() {
    let tables = listing(
        NumberFormat::Oct,
        &Nodes(vec![word(InstKind::StoC, 0o50, CtrlKind::CopyShift)]),
    );
    assert_eq!(
        tables,
        vec![Table::Words(vec![Row {
            index: 0,
            inst: "0o11   stoc".to_string(),
            addr: "0o50       parallel read".to_string(),
            ctrl: "0o1  copy and shift out".to_string(),
        }])]
    );
}

#[test]
fn listing_cells_of_every_word() {
    for numbers in [NumberFormat::Bin, NumberFormat::Oct] {
        let all: Vec<Node> = (0u32..4096)
            .map(|bits| Node::from(ue14500_toolkit::data::Word::from(bits)))
            .collect();
        let tables = listing(numbers, &Nodes(all.clone()));
        assert_eq!(tables.len(), 1);
        match &tables[0] {
            Table::Words(rows) => {
                assert_eq!(rows.len(), 4096);
                for (index, row) in rows.iter().enumerate() {
                    assert_eq!(*row, cells(numbers, index, &all[index]));
                }
            }
            Table::Comments { .. } => panic!("words were listed as comments"),
        }
    }
}

#[test]
fn listing_groups_words_and_comments() {
    let program = Nodes(vec![
        Node::Comment("  a header".to_string()),
        Node::Comment("".to_string()),
        Node::Comment("    deeper".to_string()),
        word(InstKind::Ld, 1, CtrlKind::Null),
        word(InstKind::Sto, 2, CtrlKind::Null),
        Node::Comment("   ".to_string()),
        word(InstKind::NopF, 3, CtrlKind::StopTape),
        Node::Comment("end".to_string()),
    ]);
    let tables = listing(NumberFormat::Bin, &program);
    assert_eq!(
        tables,
        vec![
            Table::Words(vec![]),
            Table::Comments {
                indent: Some(2),
                lines: vec!["  a header".to_string(), "".to_string(), "    deeper".to_string()],
            },
            Table::Words(vec![
                cells(NumberFormat::Bin, 0, &program.0[3]),
                cells(NumberFormat::Bin, 1, &program.0[4]),
            ]),
            Table::Comments { indent: None, lines: vec!["   ".to_string()] },
            Table::Words(vec![cells(NumberFormat::Bin, 2, &program.0[6])]),
            Table::Comments { indent: Some(0), lines: vec!["end".to_string()] },
        ]
    );
}

#[test]
fn listing_of_parsed_text() {
    let program = nodes("; first\n;  second\nONE 0o77 0b0\n").unwrap();
    let tables = listing(NumberFormat::Oct, &program);
    assert_eq!(
        tables,
        vec![
            Table::Words(vec![]),
            Table::Comments {
                indent: Some(1),
                lines: vec![" first".to_string(), "  second".to_string()],
            },
            Table::Words(vec![cells(NumberFormat::Oct, 0, &program.0[2])]),
        ]
    );
}

#[test]
fn indentation_of_a_line() {
    assert_eq!(indent_of(""), None);
    assert_eq!(indent_of(" \t "), None);
    assert_eq!(indent_of("x"), Some(0));
    assert_eq!(indent_of("  x  "), Some(2));
    assert_eq!(indent_of("\u{a0}\tx"), Some(2));
}

#[test]
fn width_of_the_number_column() {
    assert_eq!(index_width(0), 3);
    assert_eq!(index_width(9), 3);
    assert_eq!(index_width(10), 4);
    assert_eq!(index_width(99), 4);
    assert_eq!(index_width(100), 5);
    assert_eq!(index_width(4096), 6);
    for words in [0usize, 7, 10, 12345, 999_999, 1_000_000, usize::MAX] {
        assert_eq!(index_width(words), 2 + format!("{}", words).len());
    }
}

#[test]
fn line_without_shared_indentation() {
    assert_eq!(unindented("    text", Some(2)), "  text");
    assert_eq!(unindented("    text", Some(4)), "text");
    assert_eq!(unindented("ab", Some(2)), "ab");
    assert_eq!(unindented("ab", Some(7)), "ab");
    assert_eq!(unindented("abc", Some(2)), "c");
    assert_eq!(unindented("  text", Some(0)), "  text");
    assert_eq!(unindented("  text", None), "  text");
    assert_eq!(unindented("\u{a0}\u{e9}t\u{e9}", Some(1)), "\u{e9}t\u{e9}");
}
