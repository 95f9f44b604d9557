use ue14500_toolkit::data::{
    Nodes,
    Addr, AddrKind, Ctrl, CtrlKind, Inst, InstKind, Node, Word, Words, ADDR_MASK, ADDR_POS,
    ADDR_TABLE, CTRL_MASK, CTRL_TABLE, INST_MASK, INST_POS, INST_TABLE,
};
use ue14500_toolkit::formats::FileType;

#[test]
fn instruction_codes_round_trip() {
    for code in 0u32..16 {
        let inst = Inst::from(code << INST_POS);
        assert_eq!(inst.val(), code);
        assert_eq!(inst.kind().val(), code);
        assert_eq!(Inst::from(inst.kind()), inst);
        assert_eq!(INST_TABLE[code as usize].0, code);
        assert_eq!(INST_TABLE[code as usize].1, inst.name());
        assert_eq!(INST_TABLE[code as usize].2, inst.kind());
    }
    assert_eq!(Inst::from(0b0100u32 << INST_POS).kind(), InstKind::One);
    assert_eq!(Inst::from(InstKind::StoC).val(), 0b1001);
    assert_eq!(Inst::from(InstKind::NopF).name(), "nopf");
}

#[test]
fn address_values_round_trip() {
    for value in 0u32..64 {
        let addr = Addr::from(value << ADDR_POS);
        assert_eq!(addr.val(), value);
        let row = ADDR_TABLE
            .iter()
            .find(|row| row.0 <= value && value <= row.1)
            .unwrap();
        assert_eq!(addr.kind(), row.3);
        assert_eq!(addr.name(), row.2);
        assert_eq!(addr.kind().name(), row.2);
        assert_eq!(addr.kind().to_string(), row.2);
    }
}

#[test]
fn control_codes_round_trip() {
    for code in 0u32..4 {
        let ctrl = Ctrl::from(code);
        assert_eq!(ctrl.val(), code);
        assert_eq!(Ctrl::from(ctrl.kind()), ctrl);
        assert_eq!(CTRL_TABLE[code as usize].0, code);
        assert_eq!(CTRL_TABLE[code as usize].1, ctrl.name());
        assert_eq!(CTRL_TABLE[code as usize].2, ctrl.kind());
    }
    assert_eq!(Ctrl::from(1u32).kind(), CtrlKind::CopyShift);
    assert_eq!(Ctrl::from(CtrlKind::StopTape).name(), "stop tape");
    assert_eq!(Ctrl::from(CtrlKind::Undefined).name(), "undefined");
    assert_eq!(Ctrl::from(CtrlKind::Null).name(), "null");
    assert_eq!(Ctrl::from(CtrlKind::CopyShift).name(), "copy and shift out");
}

#[test]
fn address_classes_at_their_borders() {
    let kind = |value: u32| Addr::from(value << ADDR_POS).kind();
    assert_eq!(kind(39), AddrKind::General);
    assert_eq!(kind(40), AddrKind::ParallelRead);
    assert_eq!(kind(47), AddrKind::ParallelRead);
    assert_eq!(kind(48), AddrKind::ExternalInput);
    assert_eq!(kind(55), AddrKind::ExternalInput);
    assert_eq!(kind(56), AddrKind::QRR);
    assert_eq!(kind(57), AddrKind::RR);
    assert_eq!(kind(58), AddrKind::HighInput);
    assert_eq!(kind(59), AddrKind::HighInput);
    assert_eq!(kind(60), AddrKind::LowInput);
    assert_eq!(kind(63), AddrKind::LowInput);
    assert_eq!(AddrKind::General.name(), "general");
    assert_eq!(AddrKind::ParallelRead.name(), "parallel read");
    assert_eq!(AddrKind::ExternalInput.name(), "external input");
    assert_eq!(AddrKind::QRR.name(), "qrr");
    assert_eq!(AddrKind::RR.name(), "rr");
    assert_eq!(AddrKind::HighInput.name(), "high input");
    assert_eq!(AddrKind::LowInput.name(), "low input / high z");
}

#[test]
fn words_round_trip_through_their_bits() {
    for bits in 0u32..4096 {
        let word = Word::from(bits);
        assert_eq!(u32::from(word), bits);
        assert_eq!(word.inst().val(), bits >> 8);
        assert_eq!(word.addr().val(), (bits >> 2) & 0x3f);
        assert_eq!(word.ctrl().val(), bits & 3);
    }
}

#[test]
fn word_decoding_passes_over_high_bits() {
    assert_eq!(Word::from(0xffff_f4fd), Word::from(0x4fd));
    assert_eq!(u32::from(Word::from(0xffff_f4fd)), 0x4fd);
    assert_eq!(Inst::from(0xffff_f0ffu32), Inst::from(InstKind::Nop0));
    assert_eq!(Addr::from(0xffff_ff03u32).val(), 0);
    assert_eq!(Ctrl::from(0xffff_fffcu32), Ctrl::from(CtrlKind::Null));
    assert_eq!(INST_MASK, 0xf00);
    assert_eq!(ADDR_MASK, 0x0fc);
    assert_eq!(CTRL_MASK, 0x003);
}

#[test]
fn fields_from_narrow_and_signed_integers() {
    // a byte has no instruction bits
    assert_eq!(Inst::from(0xffu8), Inst::from(InstKind::Nop0));
    assert_eq!(Addr::from(0xffu8).val(), 63);
    assert_eq!(Ctrl::from(0xffu8), Ctrl::from(CtrlKind::StopTape));
    assert_eq!(Addr::from(-1i32).val(), 63);
    assert_eq!(Addr::from(-1i32).kind(), AddrKind::LowInput);
    assert_eq!(Addr::from(40i32 << 2).kind(), AddrKind::ParallelRead);
    assert_eq!(Ctrl::from(-2i32), Ctrl::from(CtrlKind::Undefined));
}

#[test]
fn word_with_one_field_changed() {
    let word = Word::from(0b0100_111111_00);
    assert_eq!(word.inst(), Inst::from(InstKind::One));
    assert_eq!(word.addr(), Addr::from(63 << ADDR_POS));
    assert_eq!(word.ctrl(), Ctrl::from(CtrlKind::Null));
    assert_eq!(
        u32::from(word.with_inst(Inst::from(InstKind::Ld))),
        0b0001_111111_00
    );
    assert_eq!(u32::from(word.with_addr(Addr::from(0u32))), 0b0100_000000_00);
    assert_eq!(
        u32::from(word.with_ctrl(Ctrl::from(CtrlKind::StopTape))),
        0b0100_111111_11
    );
    assert_eq!(Words(vec![word]).0[0], word);
}

#[test]
fn node_and_word() {
    let word = Word::from(0x4fd);
    let node = Node::from(word);
    assert_eq!(node, Node::Word(word.inst(), word.addr(), word.ctrl()));
    assert_eq!(node.word(), Some(word));
    assert_eq!(Node::Comment("x".to_string()).word(), None);
}

#[test]
fn fields_in_binary_and_octal() {
    for code in 0u32..16 {
        let inst = Inst::from(code << INST_POS);
        assert_eq!(inst.binary(), format!("{:04b}", code));
        assert_eq!(inst.octal(), format!("{:02o}", code));
    }
    for value in 0u32..64 {
        let addr = Addr::from(value << ADDR_POS);
        assert_eq!(addr.binary(), format!("{:06b}", value));
        assert_eq!(addr.octal(), format!("{:02o}", value));
    }
    for code in 0u32..4 {
        let ctrl = Ctrl::from(code);
        assert_eq!(ctrl.binary(), format!("{:02b}", code));
        assert_eq!(ctrl.octal(), format!("{:01o}", code));
    }
    assert_eq!(Inst::from(InstKind::One).binary(), "0100");
    assert_eq!(Inst::from(InstKind::StoC).octal(), "11");
    assert_eq!(Addr::from(5u32 << ADDR_POS).binary(), "000101");
    assert_eq!(Addr::from(5u32 << ADDR_POS).octal(), "05");
    assert_eq!(Ctrl::from(CtrlKind::CopyShift).binary(), "01");
    assert_eq!(Ctrl::from(CtrlKind::StopTape).octal(), "3");
}

#[test]
fn file_type_by_suffix() {
    let assembly = format!("prog.{}{}", "as", "m");
    assert_eq!(FileType::try_from(assembly.as_str()), Ok(FileType::Assembly));
    assert_eq!(FileType::try_from("dir/prog.bin"), Ok(FileType::Binary));
    assert_eq!(FileType::try_from(".bin"), Ok(FileType::Binary));
    assert_eq!(FileType::try_from("prog.bin.txt"), Err(()));
    assert_eq!(FileType::try_from("prog.BIN"), Err(()));
    assert_eq!(FileType::try_from("bin"), Err(()));
    assert_eq!(FileType::try_from(""), Err(()));
}

#[test]
fn words_of_a_program() {
    let first = Word::from(0x4fc);
    let second = Word::from(0x9a0);
    let program = Nodes(vec![
        Node::Comment("head".to_string()),
        Node::from(first),
        Node::Comment("".to_string()),
        Node::from(second),
        Node::from(first),
    ]);
    assert_eq!(program.words(), Words(vec![first, second, first]));
    assert_eq!(Nodes(vec![]).words(), Words(vec![]));
    assert_eq!(Nodes(vec![Node::Comment("x".to_string())]).words(), Words(vec![]));
}
