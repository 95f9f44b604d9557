use ue14500_toolkit::data::{Addr, AddrKind, Ctrl, CtrlKind, Inst, InstKind, Node, Nodes, ADDR_POS};
use ue14500_toolkit::formats::assembly::parser::{
    addr, comment, ctrl, inst, inst_item, nodes, word, ParserError, SyntaxError,
};
use ue14500_toolkit::formats::binary::{deserialize, serialize};

#[test]
fn parse_nodes() {
    let text = r"
    ONE 0o77 0b0
    STOC 0o50 0b0
    STOC 0o51 0b0
    STO 0o52 0b0
    STOC 0o53 0b0
    STO 0o54 0b0
    NOP0 0o77 0b1
    ";

    let expected = Nodes(vec![
        Node::Word(
            Inst::from(InstKind::One),
            Addr::from(63 << ADDR_POS),
            Ctrl::from(CtrlKind::Null),
        ),
        Node::Word(
            Inst::from(InstKind::StoC),
            Addr::from(40 << ADDR_POS),
            Ctrl::from(CtrlKind::Null),
        ),
        Node::Word(
            Inst::from(InstKind::StoC),
            Addr::from(41 << ADDR_POS),
            Ctrl::from(CtrlKind::Null),
        ),
        Node::Word(
            Inst::from(InstKind::Sto),
            Addr::from(42 << ADDR_POS),
            Ctrl::from(CtrlKind::Null),
        ),
        Node::Word(
            Inst::from(InstKind::StoC),
            Addr::from(43 << ADDR_POS),
            Ctrl::from(CtrlKind::Null),
        ),
        Node::Word(
            Inst::from(InstKind::Sto),
            Addr::from(44 << ADDR_POS),
            Ctrl::from(CtrlKind::Null),
        ),
        Node::Word(
            Inst::from(InstKind::Nop0),
            Addr::from(63 << ADDR_POS),
            Ctrl::from(CtrlKind::CopyShift),
        ),
    ]);

    assert_eq!(expected, nodes(text).unwrap());
}

#[test]
fn parse_comment() {
    assert_eq!(
        Node::Comment("ONE 0o77 00".into()),
        comment(";ONE 0o77 00").unwrap().0
    );
    assert_eq!(Node::Comment("".into()), comment(";   \n").unwrap().0);
    assert_eq!(
        Node::Comment(" foo bar".into()),
        comment("; foo bar  \n").unwrap().0
    );
}

#[test]
fn parse_word() {
    assert_eq!(
        Node::Word(
            Inst::from(InstKind::One),
            Addr::from(63 << ADDR_POS),
            Ctrl::from(CtrlKind::Null)
        ),
        word("ONE 0o77 0h0").unwrap().0
    );
}

#[test]
fn parse_inst() {
    assert_eq!(Inst::from(InstKind::Nop0), inst("Nop0").unwrap().0);
    assert_eq!(Inst::from(InstKind::Nop0), inst("nop0").unwrap().0);
    assert_eq!(Inst::from(InstKind::Nop0), inst("NOP0").unwrap().0);
    assert_eq!(Inst::from(InstKind::StoC), inst("stoc").unwrap().0);
}

#[test]
fn parse_addr() {
    assert_eq!(Addr::from(63 << ADDR_POS), addr("0o77").unwrap().0);
    assert_eq!(Addr::from(0 << ADDR_POS), addr("0o0").unwrap().0);
    assert!(addr("0o88").is_err());
    assert!(addr("123").is_err());
    assert!(addr("").is_err());
}

#[test]
fn parse_ctrl() {
    assert_eq!(Ctrl::from(CtrlKind::Null), ctrl("0b00").unwrap().0);
    assert_eq!(Ctrl::from(CtrlKind::CopyShift), ctrl("0b01").unwrap().0);
    assert_eq!(Ctrl::from(CtrlKind::Undefined), ctrl("0b10").unwrap().0);
    assert_eq!(Ctrl::from(CtrlKind::StopTape), ctrl("0b11").unwrap().0);
    assert_eq!(Ctrl::from(CtrlKind::Null), ctrl("0h0").unwrap().0);
    assert_eq!(Ctrl::from(CtrlKind::Null), ctrl("0b0").unwrap().0);
    assert!(ctrl("0b22").is_err());
    assert!(ctrl("22").is_err());
    assert!(ctrl("").is_err());
}

fn fails(message: SyntaxError, offset: usize) -> ParserError {
    ParserError { message, offset }
}

#[test]
fn mnemonic_in_three_spellings() {
    for text in ["one", "One", "ONE"] {
        assert_eq!(inst(text), Ok((Inst::from(InstKind::One), 3)));
    }
    for text in ["stoc", "StoC", "STOC"] {
        assert_eq!(inst(text), Ok((Inst::from(InstKind::StoC), 4)));
    }
    for text in ["nopf", "NopF", "NOPF"] {
        assert_eq!(inst(text), Ok((Inst::from(InstKind::NopF), 4)));
    }
}

#[test]
fn mnemonic_of_every_instruction() {
    let names = [
        "nop0", "ld", "add", "sub", "one", "nand", "or", "xor", "sto", "stoc", "ien", "oen", "ioc",
        "rtn", "skz", "nopf",
    ];
    for (code, name) in names.iter().enumerate() {
        let expected = Inst::from((code as u32) << 8);
        assert_eq!(expected.name(), *name);
        let line = format!("{} 0b0 0b0", name);
        assert_eq!(word(&line).unwrap().0, Node::Word(expected, Addr::from(0u32), Ctrl::from(0u32)));
        let line = format!("{} 0b0 0b0", name.to_uppercase());
        assert_eq!(word(&line).unwrap().0, Node::Word(expected, Addr::from(0u32), Ctrl::from(0u32)));
    }
}

#[test]
fn mnemonic_in_another_mix_of_cases_is_none() {
    assert_eq!(
        inst("oNE"),
        Err(fails(SyntaxError::ExpectedInst(Inst::from(InstKind::Nop0)), 0))
    );
    assert!(inst("nOP0").is_err());
    assert!(inst("Stoc").is_ok()); // `Sto`, then a `c`
    assert_eq!(inst("Stoc"), Ok((Inst::from(InstKind::Sto), 3)));
    assert!(word("Stoc 0b0 0b0").is_err());
}

#[test]
fn sto_and_stoc_are_told_apart() {
    assert_eq!(inst("sto 0b0"), Ok((Inst::from(InstKind::Sto), 3)));
    assert_eq!(inst("stoc 0b0"), Ok((Inst::from(InstKind::StoC), 4)));
    assert_eq!(
        word("stox 0b0 0b0"),
        Err(fails(SyntaxError::ExpectedWord, 3))
    );
}

#[test]
fn one_mnemonic_alone() {
    let one = Inst::from(InstKind::One);
    assert_eq!(inst_item(one, "One", "one 0b0"), Ok((one, 3)));
    assert_eq!(inst_item(one, "One", "ONE"), Ok((one, 3)));
    assert_eq!(inst_item(one, "One", "One"), Ok((one, 3)));
    assert_eq!(
        inst_item(one, "One", "on"),
        Err(fails(SyntaxError::ExpectedInst(one), 0))
    );
    assert_eq!(
        inst_item(one, "One", "ld"),
        Err(fails(SyntaxError::ExpectedInst(one), 0))
    );
}

#[test]
fn numeral_of_each_base() {
    for text in ["0b111111", "0o77", "0h3f", "0h3F"] {
        let (address, end) = addr(text).unwrap();
        assert_eq!(address.val(), 63);
        assert_eq!(address.kind(), AddrKind::LowInput);
        assert_eq!(end, text.len());
    }
}

#[test]
fn numeral_keeps_the_low_bits_of_its_field() {
    // 64 has no bit among the six of an address
    assert_eq!(addr("0b1000000").unwrap().0.val(), 0);
    assert_eq!(addr("0hff").unwrap().0.val(), 63);
    assert_eq!(ctrl("0o7").unwrap().0, Ctrl::from(CtrlKind::StopTape));
    assert_eq!(ctrl("0h4").unwrap().0, Ctrl::from(CtrlKind::Null));
}

#[test]
fn numeral_takes_so_many_digits_and_no_more() {
    let ones = "1".repeat(32);
    assert_eq!(addr(&format!("0b{}", ones)).unwrap().1, 34);
    assert_eq!(addr(&format!("0b{}1", ones)).unwrap().1, 34);
    assert_eq!(addr("0hffffffff").unwrap().1, 10);
    assert_eq!(addr("0hfffffffff").unwrap().1, 10);
    assert_eq!(addr("0o37777777777").unwrap().1, 13);
    assert_eq!(addr("0o377777777770").unwrap().1, 13);
    // eleven octal digits that do not fit in 32 bits
    assert_eq!(
        addr("0o40000000000"),
        Err(fails(SyntaxError::ExpectedAddr, 0))
    );
    assert_eq!(
        ctrl("0o77777777777"),
        Err(fails(SyntaxError::ExpectedCtrl, 0))
    );
}

#[test]
fn numeral_needs_prefix_and_digit() {
    for text in ["", "0", "0b", "0o", "0h", "0x1f", "0B1", "0b2", "0o8", "0hg", "1", "b1", " 0b1"] {
        assert_eq!(addr(text), Err(fails(SyntaxError::ExpectedAddr, 0)), "{:?}", text);
        assert_eq!(ctrl(text), Err(fails(SyntaxError::ExpectedCtrl, 0)), "{:?}", text);
    }
}

#[test]
fn address_ranges() {
    let expected = [
        (0, AddrKind::General),
        (39, AddrKind::General),
        (40, AddrKind::ParallelRead),
        (47, AddrKind::ParallelRead),
        (48, AddrKind::ExternalInput),
        (55, AddrKind::ExternalInput),
        (56, AddrKind::QRR),
        (57, AddrKind::RR),
        (58, AddrKind::HighInput),
        (59, AddrKind::HighInput),
        (60, AddrKind::LowInput),
        (63, AddrKind::LowInput),
    ];
    for (value, kind) in expected {
        let address = Addr::from((value as u32) << ADDR_POS);
        assert_eq!(address.val(), value);
        assert_eq!(address.kind(), kind);
        let parsed = addr(&format!("0o{:o}", value)).unwrap().0;
        assert_eq!(parsed, address);
    }
}

#[test]
fn assemble_three_lines() {
    let parsed = nodes("ONE 0o77 0b0\nSTOC 0o50 0b0\nNOP0 0o77 0b1\n").unwrap();
    assert_eq!(parsed.0.len(), 3);
    let bytes = serialize(parsed.clone());
    assert_eq!(bytes.len(), 5);
    assert_eq!(bytes, vec![0x4f, 0xc9, 0xa0, 0x0f, 0xd0]);
    assert_eq!(bytes[4] & 0x0f, 0);

    let decoded = deserialize(&bytes);
    assert_eq!(decoded, parsed);
    let fields: Vec<(u32, u32, u32)> = decoded
        .0
        .iter()
        .map(|node| match node {
            Node::Word(inst, addr, ctrl) => (inst.val(), addr.val(), ctrl.val()),
            Node::Comment(_) => panic!("a comment came out of the binary"),
        })
        .collect();
    assert_eq!(
        fields,
        vec![(0b0100, 0b111111, 0b00), (0b1001, 0b101000, 0b00), (0b0000, 0b111111, 0b01)]
    );
    match &decoded.0[0] {
        Node::Word(inst, addr, _) => {
            assert_eq!(inst.kind(), InstKind::One);
            assert_eq!(addr.kind(), AddrKind::LowInput);
            assert_eq!(addr.name(), "low input / high z");
        }
        Node::Comment(_) => unreachable!(),
    }
}

#[test]
fn malformed_lines() {
    assert_eq!(
        nodes("FOO 0o1 0b0"),
        Err(fails(SyntaxError::ExpectedInst(Inst::from(InstKind::Nop0)), 0))
    );
    assert_eq!(
        nodes("ONE 99 0b0"),
        Err(fails(SyntaxError::ExpectedAddr, 4))
    );
    assert_eq!(
        nodes("ONE 0o77 zz"),
        Err(fails(SyntaxError::ExpectedCtrl, 9))
    );
    assert_eq!(nodes("ONE"), Err(fails(SyntaxError::UnexpectedEoi, 3)));
    assert_eq!(nodes("ONE 0o77"), Err(fails(SyntaxError::UnexpectedEoi, 8)));
    assert_eq!(nodes("ONE0o77 0b0"), Err(fails(SyntaxError::ExpectedWord, 3)));
    assert_eq!(nodes("ONE 0o77,0b0"), Err(fails(SyntaxError::ExpectedWord, 8)));
    assert_eq!(nodes("ONE 0o77 0b0 x"), Err(fails(SyntaxError::ExpectedWord, 12)));
    assert_eq!(nodes("ONE 0o77 0b0 \n"), Err(fails(SyntaxError::ExpectedWord, 12)));
    assert_eq!(nodes("ONE "), Err(fails(SyntaxError::ExpectedAddr, 4)));
    assert_eq!(nodes("ONE 0b1 "), Err(fails(SyntaxError::ExpectedCtrl, 8)));
    assert_eq!(
        nodes("ONE 0o77 0b0\nTWO 0o77 0b0\n"),
        Err(fails(SyntaxError::ExpectedInst(Inst::from(InstKind::Nop0)), 13))
    );
    assert_eq!(comment("ONE"), Err(fails(SyntaxError::ExpectedComment, 0)));
    assert_eq!(comment(""), Err(fails(SyntaxError::ExpectedComment, 0)));
}

#[test]
fn fields_stay_on_one_line() {
    assert_eq!(nodes("ONE\n0o77 0b0"), Err(fails(SyntaxError::ExpectedWord, 3)));
    assert_eq!(nodes("ONE \n0o77 0b0"), Err(fails(SyntaxError::ExpectedAddr, 4)));
    assert_eq!(nodes("ONE 0o77\n0b0"), Err(fails(SyntaxError::ExpectedWord, 8)));
    assert!(nodes("ONE\t0o77  \t 0b0").is_ok());
}

#[test]
fn comment_only_file() {
    let parsed = nodes("; hello\n; world\n").unwrap();
    assert_eq!(
        parsed,
        Nodes(vec![Node::Comment(" hello".into()), Node::Comment(" world".into())])
    );
    assert_eq!(serialize(parsed), Vec::<u8>::new());
}

#[test]
fn comments_between_words() {
    let parsed = nodes("; start\nLD 0o1 0b0\n  ;   indented  \n;\nSTO 0o2 0b0 ").unwrap_err();
    assert_eq!(parsed, fails(SyntaxError::ExpectedWord, 49));
    let parsed = nodes("; start\nLD 0o1 0b0\n  ;   indented  \n;\nSTO 0o2 0b0").unwrap();
    assert_eq!(
        parsed,
        Nodes(vec![
            Node::Comment(" start".into()),
            Node::Word(Inst::from(InstKind::Ld), Addr::from(1 << ADDR_POS), Ctrl::from(0)),
            Node::Comment("   indented".into()),
            Node::Comment("".into()),
            Node::Word(Inst::from(InstKind::Sto), Addr::from(2 << ADDR_POS), Ctrl::from(0)),
        ])
    );
    assert_eq!(serialize(parsed).len(), 3);
}

#[test]
fn comment_line_ends() {
    assert_eq!(comment(";a\r\nb"), Ok((Node::Comment("a".into()), 4)));
    assert_eq!(comment(";a\nb"), Ok((Node::Comment("a".into()), 3)));
    assert_eq!(comment(";a"), Ok((Node::Comment("a".into()), 2)));
    assert_eq!(comment(";"), Ok((Node::Comment("".into()), 1)));
    assert_eq!(comment("; a\rb \t\n"), Ok((Node::Comment(" a\rb".into()), 8)));
    assert_eq!(comment("; caf\u{e9} \u{a0}\nx"), Ok((Node::Comment(" caf\u{e9}".into()), 9)));
}

#[test]
fn word_line_ends() {
    let expected = Node::Word(Inst::from(InstKind::Ld), Addr::from(4), Ctrl::from(1));
    assert_eq!(word("ld 0b1 0b1"), Ok((expected.clone(), 10)));
    assert_eq!(word("ld 0b1 0b1\n"), Ok((expected.clone(), 11)));
    assert_eq!(word("ld 0b1 0b1\r\nld"), Ok((expected.clone(), 12)));
    assert_eq!(word("ld 0b1 0b1\r"), Err(fails(SyntaxError::ExpectedWord, 10)));
}

#[test]
fn blank_lines_around_and_between() {
    let one = Node::Word(Inst::from(InstKind::One), Addr::from(0), Ctrl::from(0));
    assert_eq!(nodes(""), Ok(Nodes(vec![])));
    assert_eq!(nodes(" \n\t\r\n  "), Ok(Nodes(vec![])));
    assert_eq!(
        nodes("\n\n  one 0b0 0b0\n\n \n"),
        Ok(Nodes(vec![one.clone()]))
    );
    assert_eq!(
        nodes("one 0b0 0b0\n  one 0b0 0b0\n"),
        Ok(Nodes(vec![one.clone(), one.clone()]))
    );
    // a blank line between two lines of content is no line of the grammar
    assert_eq!(
        nodes("one 0b0 0b0\n\none 0b0 0b0\n"),
        Err(fails(SyntaxError::ExpectedInst(Inst::from(InstKind::Nop0)), 12))
    );
    assert_eq!(
        nodes("; a\n  \n; b\n"),
        Err(fails(SyntaxError::ExpectedInst(Inst::from(InstKind::Nop0)), 6))
    );
}

#[test]
fn white_space_is_what_std_calls_so() {
    for code in 0u32..0x11_0000 {
        if let Some(c) = char::from_u32(code) {
            let text = format!(";x{}", c);
            let (node, _) = comment(&text).unwrap();
            let kept = match node {
                Node::Comment(text) => text,
                Node::Word(..) => unreachable!(),
            };
            if c == '\n' || c.is_whitespace() {
                assert_eq!(kept, "x", "{:?}", c);
            } else {
                assert_eq!(kept, format!("x{}", c), "{:?}", c);
            }
        }
    }
}

#[test]
fn offsets_count_characters() {
    assert_eq!(
        nodes("; caf\u{e9}\nFOO"),
        Err(fails(SyntaxError::ExpectedInst(Inst::from(InstKind::Nop0)), 7))
    );
}
