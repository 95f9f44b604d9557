//! The 12-bit instruction word and its three fields.
use crate::text::{digits, fixed_digits};
use vstd::prelude::*;
use vstd::string::StringExecFns;

verus! {

/// Bits 8..=11 of a word hold the instruction code.
pub const INST_MASK: u32 = 0b1111_000000_00;

/// The place of the lowest bit of the instruction code.
pub const INST_POS: u32 = 8;

/// Bits 2..=7 of a word hold the address.
pub const ADDR_MASK: u32 = 0b0000_111111_00;

/// The place of the lowest bit of the address.
pub const ADDR_POS: u32 = 2;

/// Bits 0..=1 of a word hold the I/O control code.
pub const CTRL_MASK: u32 = 0b0000_000000_11;

/// The instruction table: code, canonical mnemonic, variant. The entry of
/// code `c` stands at index `c`.
pub const INST_TABLE: [(u32, &'static str, InstKind); 16] = [
    (0b0000, "nop0", InstKind::Nop0),
    (0b0001, "ld", InstKind::Ld),
    (0b0010, "add", InstKind::Add),
    (0b0011, "sub", InstKind::Sub),
    (0b0100, "one", InstKind::One),
    (0b0101, "nand", InstKind::Nand),
    (0b0110, "or", InstKind::Or),
    (0b0111, "xor", InstKind::Xor),
    (0b1000, "sto", InstKind::Sto),
    (0b1001, "stoc", InstKind::StoC),
    (0b1010, "ien", InstKind::Ien),
    (0b1011, "oen", InstKind::Oen),
    (0b1100, "ioc", InstKind::Ioc),
    (0b1101, "rtn", InstKind::Rtn),
    (0b1110, "skz", InstKind::Skz),
    (0b1111, "nopf", InstKind::NopF),
];

/// Each row of `INST_TABLE` holds the variant of its index, with that
/// variant's code and mnemonic.
pub proof fn lemma_inst_table(row: int)
    requires
        0 <= row < 16,
    ensures
        INST_TABLE[row].0 == row,
        INST_TABLE[row].2 == InstKind::with_code(row as u32),
        INST_TABLE[row].2.code() == row,
        INST_TABLE[row].1@ == INST_TABLE[row].2.mnemonic(),
{
}

/// The sixteen instructions, in the order of their codes.
#[derive(Debug, Clone, Copy, PartialEq, Eq, Structural)]
pub enum InstKind {
    Nop0,
    Ld,
    Add,
    Sub,
    One,
    Nand,
    Or,
    Xor,
    Sto,
    StoC,
    Ien,
    Oen,
    Ioc,
    Rtn,
    Skz,
    NopF,
}

impl InstKind {
    /// The instruction's 4-bit code.
    pub open spec fn code(self) -> u32 {
        match self {
            InstKind::Nop0 => 0b0000,
            InstKind::Ld => 0b0001,
            InstKind::Add => 0b0010,
            InstKind::Sub => 0b0011,
            InstKind::One => 0b0100,
            InstKind::Nand => 0b0101,
            InstKind::Or => 0b0110,
            InstKind::Xor => 0b0111,
            InstKind::Sto => 0b1000,
            InstKind::StoC => 0b1001,
            InstKind::Ien => 0b1010,
            InstKind::Oen => 0b1011,
            InstKind::Ioc => 0b1100,
            InstKind::Rtn => 0b1101,
            InstKind::Skz => 0b1110,
            InstKind::NopF => 0b1111,
        }
    }

    /// The instruction whose code is `code`; every value below 16 is the
    /// code of exactly one instruction.
    pub open spec fn with_code(code: u32) -> InstKind {
        if code == 0b0000 {
            InstKind::Nop0
        } else if code == 0b0001 {
            InstKind::Ld
        } else if code == 0b0010 {
            InstKind::Add
        } else if code == 0b0011 {
            InstKind::Sub
        } else if code == 0b0100 {
            InstKind::One
        } else if code == 0b0101 {
            InstKind::Nand
        } else if code == 0b0110 {
            InstKind::Or
        } else if code == 0b0111 {
            InstKind::Xor
        } else if code == 0b1000 {
            InstKind::Sto
        } else if code == 0b1001 {
            InstKind::StoC
        } else if code == 0b1010 {
            InstKind::Ien
        } else if code == 0b1011 {
            InstKind::Oen
        } else if code == 0b1100 {
            InstKind::Ioc
        } else if code == 0b1101 {
            InstKind::Rtn
        } else if code == 0b1110 {
            InstKind::Skz
        } else {
            InstKind::NopF
        }
    }

    /// The instruction's canonical lower-case mnemonic.
    pub open spec fn mnemonic(self) -> Seq<char> {
        match self {
            InstKind::Nop0 => "nop0"@,
            InstKind::Ld => "ld"@,
            InstKind::Add => "add"@,
            InstKind::Sub => "sub"@,
            InstKind::One => "one"@,
            InstKind::Nand => "nand"@,
            InstKind::Or => "or"@,
            InstKind::Xor => "xor"@,
            InstKind::Sto => "sto"@,
            InstKind::StoC => "stoc"@,
            InstKind::Ien => "ien"@,
            InstKind::Oen => "oen"@,
            InstKind::Ioc => "ioc"@,
            InstKind::Rtn => "rtn"@,
            InstKind::Skz => "skz"@,
            InstKind::NopF => "nopf"@,
        }
    }

    /// The variant's row in `INST_TABLE`.
    fn row(self) -> (row: usize)
        ensures
            row == self.code(),
            row < 16,
            INST_TABLE[row as int].0 == self.code(),
            INST_TABLE[row as int].1@ == self.mnemonic(),
            INST_TABLE[row as int].2 == self,
    {
        match self {
            InstKind::Nop0 => 0,
            InstKind::Ld => 1,
            InstKind::Add => 2,
            InstKind::Sub => 3,
            InstKind::One => 4,
            InstKind::Nand => 5,
            InstKind::Or => 6,
            InstKind::Xor => 7,
            InstKind::Sto => 8,
            InstKind::StoC => 9,
            InstKind::Ien => 10,
            InstKind::Oen => 11,
            InstKind::Ioc => 12,
            InstKind::Rtn => 13,
            InstKind::Skz => 14,
            InstKind::NopF => 15,
        }
    }

    /// The canonical mnemonic, from `INST_TABLE`.
    pub fn name(self) -> (name: &'static str)
        ensures
            name@ == self.mnemonic(),
    {
        INST_TABLE[self.row()].1
    }

    /// The code, from `INST_TABLE`.
    #[verifier::when_used_as_spec(code)]
    pub fn val(self) -> (val: u32)
        ensures
            val == self.code(),
            val < 16,
    {
        INST_TABLE[self.row()].0
    }
}

/// The instruction field of a word.
#[derive(Debug, Clone, Copy, PartialEq, Eq, Structural)]
pub struct Inst(pub InstKind);

impl Inst {
    /// The instruction that a word's bits 8..=11 select; the other bits of
    /// `word` do not count.
    pub open spec fn decode(word: u32) -> Inst {
        Inst(InstKind::with_code((word & INST_MASK) >> INST_POS))
    }

    /// The instruction.
    pub fn kind(self) -> (kind: InstKind)
        ensures
            kind == self.0,
    {
        self.0
    }

    /// The instruction's canonical mnemonic.
    pub fn name(self) -> (name: &'static str)
        ensures
            name@ == self.0.mnemonic(),
    {
        self.kind().name()
    }

    /// The instruction's 4-bit code.
    pub open spec fn code(self) -> u32 {
        self.0.code()
    }

    /// The instruction's 4-bit code.
    #[verifier::when_used_as_spec(code)]
    pub fn val(self) -> (val: u32)
        ensures
            val == self.0.code(),
            val < 16,
    {
        self.kind().val()
    }

    /// The code in binary, four digits wide.
    pub fn binary(self) -> (text: String)
        ensures
            text@ == fixed_digits(self.code() as nat, 2, 4),
    {
        digits(self.val(), 2, 4)
    }

    /// The code in octal, two digits wide.
    pub fn octal(self) -> (text: String)
        ensures
            text@ == fixed_digits(self.code() as nat, 8, 2),
    {
        digits(self.val(), 8, 2)
    }
}

impl From<InstKind> for Inst {
    fn from(kind: InstKind) -> (inst: Inst)
        ensures
            inst == Inst(kind),
    {
        Inst(kind)
    }
}

impl vstd::std_specs::convert::FromSpecImpl<InstKind> for Inst {
    open spec fn obeys_from_spec() -> bool {
        true
    }

    open spec fn from_spec(kind: InstKind) -> Inst {
        Inst(kind)
    }
}

impl From<u32> for Inst {
    fn from(word: u32) -> (inst: Inst)
        ensures
            inst == Inst::decode(word),
    {
        let val = (word & INST_MASK) >> INST_POS;
        assert(val < 16) by (bit_vector)
            requires
                val == (word & 0xf00u32) >> 8u32,
        ;
        let mut row: usize = 0;
        while row < 16
            invariant
                val == (word & INST_MASK) >> INST_POS,
                val < 16,
                row <= val,
            decreases 16 - row,
        {
            proof {
                lemma_inst_table(row as int);
            }
            if INST_TABLE[row].0 == val {
                return Inst(INST_TABLE[row].2);
            }
            row += 1;
        }
        vstd::pervasive::unreached()
    }
}

impl vstd::std_specs::convert::FromSpecImpl<u32> for Inst {
    open spec fn obeys_from_spec() -> bool {
        true
    }

    open spec fn from_spec(word: u32) -> Inst {
        Inst::decode(word)
    }
}

impl From<u8> for Inst {
    fn from(word: u8) -> (inst: Inst)
        ensures
            inst == Inst::decode(word as u32),
    {
        Inst::from(word as u32)
    }
}

impl vstd::std_specs::convert::FromSpecImpl<u8> for Inst {
    open spec fn obeys_from_spec() -> bool {
        true
    }

    open spec fn from_spec(word: u8) -> Inst {
        Inst::decode(word as u32)
    }
}

/// The address table: first and last value of each range, the range's
/// name, its classification. The ranges follow one another and cover 0..=63.
pub const ADDR_TABLE: [(u32, u32, &'static str, AddrKind); 7] = [
    (0b000_000, 0b100_111, "general", AddrKind::General),
    (0b101_000, 0b101_111, "parallel read", AddrKind::ParallelRead),
    (0b110_000, 0b110_111, "external input", AddrKind::ExternalInput),
    (0b111_000, 0b111_000, "qrr", AddrKind::QRR),
    (0b111_001, 0b111_001, "rr", AddrKind::RR),
    (0b111_010, 0b111_011, "high input", AddrKind::HighInput),
    (0b111_100, 0b111_111, "low input / high z", AddrKind::LowInput),
];

/// Each row of `ADDR_TABLE` holds the variant of its index, with the values
/// that the variant classifies and its name.
pub proof fn lemma_addr_table(row: int, value: u32)
    requires
        0 <= row < 7,
    ensures
        ADDR_TABLE[row].3.row_index() == row,
        ADDR_TABLE[row].2@ == ADDR_TABLE[row].3.label(),
        ADDR_TABLE[row].0 <= value <= ADDR_TABLE[row].1 <==> AddrKind::classify(value)
            == ADDR_TABLE[row].3 && value < 64,
        row == 0 ==> ADDR_TABLE[row].0 == 0,
        row < 6 ==> ADDR_TABLE[row + 1].0 == ADDR_TABLE[row].1 + 1,
        row == 6 ==> ADDR_TABLE[row].1 == 63,
{
}

/// The addressing modes, in the order of their address ranges.
#[derive(Debug, Clone, Copy, PartialEq, Eq, Structural)]
pub enum AddrKind {
    General,
    ParallelRead,
    ExternalInput,
    QRR,
    RR,
    HighInput,
    LowInput,
}

impl AddrKind {
    /// The addressing mode of a 6-bit address value. Values from 64 on are
    /// no addresses; they fall under the last mode here.
    pub open spec fn classify(value: u32) -> AddrKind {
        if value <= 39 {
            AddrKind::General
        } else if value <= 47 {
            AddrKind::ParallelRead
        } else if value <= 55 {
            AddrKind::ExternalInput
        } else if value == 56 {
            AddrKind::QRR
        } else if value == 57 {
            AddrKind::RR
        } else if value <= 59 {
            AddrKind::HighInput
        } else {
            AddrKind::LowInput
        }
    }

    /// The mode's name.
    pub open spec fn label(self) -> Seq<char> {
        match self {
            AddrKind::General => "general"@,
            AddrKind::ParallelRead => "parallel read"@,
            AddrKind::ExternalInput => "external input"@,
            AddrKind::QRR => "qrr"@,
            AddrKind::RR => "rr"@,
            AddrKind::HighInput => "high input"@,
            AddrKind::LowInput => "low input / high z"@,
        }
    }

    /// The place of the mode among the modes.
    pub open spec fn row_index(self) -> int {
        match self {
            AddrKind::General => 0,
            AddrKind::ParallelRead => 1,
            AddrKind::ExternalInput => 2,
            AddrKind::QRR => 3,
            AddrKind::RR => 4,
            AddrKind::HighInput => 5,
            AddrKind::LowInput => 6,
        }
    }

    /// The variant's row in `ADDR_TABLE`.
    fn row(self) -> (row: usize)
        ensures
            row == self.row_index(),
            row < 7,
            ADDR_TABLE[row as int].2@ == self.label(),
            ADDR_TABLE[row as int].3 == self,
    {
        match self {
            AddrKind::General => 0,
            AddrKind::ParallelRead => 1,
            AddrKind::ExternalInput => 2,
            AddrKind::QRR => 3,
            AddrKind::RR => 4,
            AddrKind::HighInput => 5,
            AddrKind::LowInput => 6,
        }
    }

    /// The mode's name, from `ADDR_TABLE`.
    pub fn name(self) -> (name: &'static str)
        ensures
            name@ == self.label(),
    {
        ADDR_TABLE[self.row()].2
    }

    /// The mode as text: its name, looked up in `ADDR_TABLE` by the variant.
    pub fn to_string(&self) -> (text: String)
        ensures
            text@ == self.label(),
    {
        let mut row: usize = 0;
        while row < 7
            invariant
                row <= self.row_index(),
            decreases 7 - row,
        {
            proof {
                lemma_addr_table(row as int, 0);
            }
            if ADDR_TABLE[row].3 == *self {
                return String::from_str(ADDR_TABLE[row].2);
            }
            row += 1;
        }
        String::from_str(ADDR_TABLE[0].2)
    }
}

/// The address field of a word: a 6-bit value with its addressing mode.
#[derive(Debug, Clone, Copy, PartialEq, Eq, Structural)]
pub struct Addr(AddrKind, u32);

impl Addr {
    /// An address holds a value below 64 and the mode of that value.
    #[verifier::type_invariant]
    pub closed spec fn wf(self) -> bool {
        self.1 < 64 && self.0 == AddrKind::classify(self.1)
    }

    /// The 6-bit address value.
    pub closed spec fn value(&self) -> u32 {
        self.1
    }

    /// The addressing mode that the address carries.
    pub closed spec fn mode(&self) -> AddrKind {
        self.0
    }

    /// The address that a word's bits 2..=7 give; the other bits of `word`
    /// do not count.
    pub closed spec fn decode(word: u32) -> Addr {
        let value = (word & ADDR_MASK) >> ADDR_POS;
        Addr(AddrKind::classify(value), value)
    }

    /// What `decode` gives: a well-formed address with the value of the
    /// word's address bits.
    pub proof fn lemma_decode(word: u32)
        ensures
            Addr::decode(word).wf(),
            Addr::decode(word).value() == (word & ADDR_MASK) >> ADDR_POS,
            Addr::decode(word).value() < 64,
            Addr::decode(word).mode() == AddrKind::classify(Addr::decode(word).value()),
    {
        assert((word & 0xfcu32) >> 2u32 < 64) by (bit_vector);
    }

    /// A well-formed address holds a value below 64 with that value's mode,
    /// and is the only one with that value.
    pub proof fn lemma_wf(self)
        requires
            self.wf(),
        ensures
            self.value() < 64,
            self.mode() == AddrKind::classify(self.value()),
            Addr::decode(self.value() << ADDR_POS) == self,
    {
        let v = self.1;
        assert(((v << 2u32) & 0xfcu32) >> 2u32 == v) by (bit_vector)
            requires
                v < 64,
        ;
    }

    /// Two addresses with the same value and mode are the same address.
    pub proof fn lemma_same(a: Addr, b: Addr)
        requires
            a.value() == b.value(),
            a.mode() == b.mode(),
        ensures
            a == b,
    {
    }

    /// The addressing mode: that of the address value.
    #[verifier::when_used_as_spec(mode)]
    pub fn kind(&self) -> (kind: AddrKind)
        ensures
            kind == self.mode(),
            kind == AddrKind::classify(self.value()),
    {
        proof {
            use_type_invariant(self);
        }
        self.0
    }

    /// The name of the addressing mode.
    pub fn name(&self) -> (name: &'static str)
        ensures
            name@ == AddrKind::classify(self.value()).label(),
            name@ == self.mode().label(),
    {
        self.kind().name()
    }

    /// The 6-bit address value.
    #[verifier::when_used_as_spec(value)]
    pub fn val(&self) -> (val: u32)
        ensures
            val == self.value(),
            val < 64,
    {
        proof {
            use_type_invariant(self);
        }
        self.1
    }

    /// The value in binary, six digits wide.
    pub fn binary(&self) -> (text: String)
        ensures
            text@ == fixed_digits(self.value() as nat, 2, 6),
    {
        digits(self.val(), 2, 6)
    }

    /// The value in octal, two digits wide.
    pub fn octal(&self) -> (text: String)
        ensures
            text@ == fixed_digits(self.value() as nat, 8, 2),
    {
        digits(self.val(), 8, 2)
    }
}

impl From<u32> for Addr {
    fn from(word: u32) -> (addr: Addr)
        ensures
            addr == Addr::decode(word),
            addr.value() == (word & ADDR_MASK) >> ADDR_POS,
            addr.mode() == AddrKind::classify(addr.value()),
    {
        let addr_bits = (word & ADDR_MASK) >> ADDR_POS;
        assert(addr_bits < 64) by (bit_vector)
            requires
                addr_bits == (word & 0xfcu32) >> 2u32,
        ;
        let mut row: usize = 0;
        while row < 7
            invariant
                addr_bits == (word & ADDR_MASK) >> ADDR_POS,
                addr_bits < 64,
                row < 7,
                ADDR_TABLE[row as int].0 <= addr_bits,
            decreases 7 - row,
        {
            proof {
                lemma_addr_table(row as int, addr_bits);
            }
            if ADDR_TABLE[row].0 <= addr_bits && addr_bits <= ADDR_TABLE[row].1 {
                return Addr(ADDR_TABLE[row].3, addr_bits);
            }
            row += 1;
        }
        Addr(AddrKind::General, addr_bits)
    }
}

impl vstd::std_specs::convert::FromSpecImpl<u32> for Addr {
    open spec fn obeys_from_spec() -> bool {
        true
    }

    open spec fn from_spec(word: u32) -> Addr {
        Addr::decode(word)
    }
}

impl From<i32> for Addr {
    fn from(word: i32) -> (addr: Addr)
        ensures
            addr == Addr::decode(word as u32),
    {
        Addr::from(#[verifier::truncate] (word as u32))
    }
}

impl vstd::std_specs::convert::FromSpecImpl<i32> for Addr {
    open spec fn obeys_from_spec() -> bool {
        true
    }

    open spec fn from_spec(word: i32) -> Addr {
        Addr::decode(word as u32)
    }
}

impl From<u8> for Addr {
    fn from(word: u8) -> (addr: Addr)
        ensures
            addr == Addr::decode(word as u32),
    {
        Addr::from(word as u32)
    }
}

impl vstd::std_specs::convert::FromSpecImpl<u8> for Addr {
    open spec fn obeys_from_spec() -> bool {
        true
    }

    open spec fn from_spec(word: u8) -> Addr {
        Addr::decode(word as u32)
    }
}

/// The control table: code, name, variant. The entry of code `c` stands at
/// index `c`.
pub const CTRL_TABLE: [(u32, &'static str, CtrlKind); 4] = [
    (0b00, "null", CtrlKind::Null),
    (0b01, "copy and shift out", CtrlKind::CopyShift),
    (0b10, "undefined", CtrlKind::Undefined),
    (0b11, "stop tape", CtrlKind::StopTape),
];

/// Each row of `CTRL_TABLE` holds the variant of its index, with that
/// variant's code and name.
pub proof fn lemma_ctrl_table(row: int)
    requires
        0 <= row < 4,
    ensures
        CTRL_TABLE[row].0 == row,
        CTRL_TABLE[row].2 == CtrlKind::with_code(row as u32),
        CTRL_TABLE[row].2.code() == row,
        CTRL_TABLE[row].1@ == CTRL_TABLE[row].2.label(),
{
}

/// The four I/O control codes, in the order of their codes.
#[derive(Debug, Clone, Copy, PartialEq, Eq, Structural)]
pub enum CtrlKind {
    Null,
    CopyShift,
    Undefined,
    StopTape,
}

impl CtrlKind {
    /// The control's 2-bit code.
    pub open spec fn code(self) -> u32 {
        match self {
            CtrlKind::Null => 0b00,
            CtrlKind::CopyShift => 0b01,
            CtrlKind::Undefined => 0b10,
            CtrlKind::StopTape => 0b11,
        }
    }

    /// The control whose code is `code`; every value below 4 is the code of
    /// exactly one control.
    pub open spec fn with_code(code: u32) -> CtrlKind {
        if code == 0b00 {
            CtrlKind::Null
        } else if code == 0b01 {
            CtrlKind::CopyShift
        } else if code == 0b10 {
            CtrlKind::Undefined
        } else {
            CtrlKind::StopTape
        }
    }

    /// The control's name.
    pub open spec fn label(self) -> Seq<char> {
        match self {
            CtrlKind::Null => "null"@,
            CtrlKind::CopyShift => "copy and shift out"@,
            CtrlKind::Undefined => "undefined"@,
            CtrlKind::StopTape => "stop tape"@,
        }
    }

    /// The variant's row in `CTRL_TABLE`.
    fn row(self) -> (row: usize)
        ensures
            row == self.code(),
            row < 4,
            CTRL_TABLE[row as int].0 == self.code(),
            CTRL_TABLE[row as int].1@ == self.label(),
            CTRL_TABLE[row as int].2 == self,
    {
        match self {
            CtrlKind::Null => 0,
            CtrlKind::CopyShift => 1,
            CtrlKind::Undefined => 2,
            CtrlKind::StopTape => 3,
        }
    }

    /// The control's name, from `CTRL_TABLE`.
    pub fn name(self) -> (name: &'static str)
        ensures
            name@ == self.label(),
    {
        CTRL_TABLE[self.row()].1
    }

    /// The code, from `CTRL_TABLE`.
    #[verifier::when_used_as_spec(code)]
    pub fn val(self) -> (val: u32)
        ensures
            val == self.code(),
            val < 4,
    {
        CTRL_TABLE[self.row()].0
    }
}

/// The I/O control field of a word.
#[derive(Debug, Clone, Copy, PartialEq, Eq, Structural)]
pub struct Ctrl(pub CtrlKind);

impl Ctrl {
    /// The control that a word's bits 0..=1 select; the other bits of `word`
    /// do not count.
    pub open spec fn decode(word: u32) -> Ctrl {
        Ctrl(CtrlKind::with_code(word & CTRL_MASK))
    }

    /// The control.
    pub fn kind(&self) -> (kind: CtrlKind)
        ensures
            kind == self.0,
    {
        self.0
    }

    /// The control's name.
    pub fn name(&self) -> (name: &'static str)
        ensures
            name@ == self.0.label(),
    {
        self.kind().name()
    }

    /// The control's 2-bit code.
    pub open spec fn code(&self) -> u32 {
        self.0.code()
    }

    /// The control's 2-bit code.
    #[verifier::when_used_as_spec(code)]
    pub fn val(&self) -> (val: u32)
        ensures
            val == self.0.code(),
            val < 4,
    {
        self.kind().val()
    }

    /// The code in binary, two digits wide.
    pub fn binary(&self) -> (text: String)
        ensures
            text@ == fixed_digits(self.code() as nat, 2, 2),
    {
        digits(self.val(), 2, 2)
    }

    /// The code in octal, one digit wide.
    pub fn octal(&self) -> (text: String)
        ensures
            text@ == fixed_digits(self.code() as nat, 8, 1),
    {
        digits(self.val(), 8, 1)
    }
}

impl From<CtrlKind> for Ctrl {
    fn from(kind: CtrlKind) -> (ctrl: Ctrl)
        ensures
            ctrl == Ctrl(kind),
    {
        Ctrl(kind)
    }
}

impl vstd::std_specs::convert::FromSpecImpl<CtrlKind> for Ctrl {
    open spec fn obeys_from_spec() -> bool {
        true
    }

    open spec fn from_spec(kind: CtrlKind) -> Ctrl {
        Ctrl(kind)
    }
}

impl From<u32> for Ctrl {
    fn from(word: u32) -> (ctrl: Ctrl)
        ensures
            ctrl == Ctrl::decode(word),
    {
        let val = word & CTRL_MASK;
        assert(val < 4) by (bit_vector)
            requires
                val == word & 0x3u32,
        ;
        let mut row: usize = 0;
        while row < 4
            invariant
                val == word & CTRL_MASK,
                val < 4,
                row <= val,
            decreases 4 - row,
        {
            proof {
                lemma_ctrl_table(row as int);
            }
            if CTRL_TABLE[row].0 == val {
                return Ctrl(CTRL_TABLE[row].2);
            }
            row += 1;
        }
        vstd::pervasive::unreached()
    }
}

impl vstd::std_specs::convert::FromSpecImpl<u32> for Ctrl {
    open spec fn obeys_from_spec() -> bool {
        true
    }

    open spec fn from_spec(word: u32) -> Ctrl {
        Ctrl::decode(word)
    }
}

impl From<i32> for Ctrl {
    fn from(word: i32) -> (ctrl: Ctrl)
        ensures
            ctrl == Ctrl::decode(word as u32),
    {
        Ctrl::from(#[verifier::truncate] (word as u32))
    }
}

impl vstd::std_specs::convert::FromSpecImpl<i32> for Ctrl {
    open spec fn obeys_from_spec() -> bool {
        true
    }

    open spec fn from_spec(word: i32) -> Ctrl {
        Ctrl::decode(word as u32)
    }
}

impl From<u8> for Ctrl {
    fn from(word: u8) -> (ctrl: Ctrl)
        ensures
            ctrl == Ctrl::decode(word as u32),
    {
        Ctrl::from(word as u32)
    }
}

impl vstd::std_specs::convert::FromSpecImpl<u8> for Ctrl {
    open spec fn obeys_from_spec() -> bool {
        true
    }

    open spec fn from_spec(word: u8) -> Ctrl {
        Ctrl::decode(word as u32)
    }
}

/// A 12-bit code word: instruction, address, I/O control.
#[derive(Debug, Clone, Copy, PartialEq, Eq, Structural)]
pub struct Word(pub Inst, pub Addr, pub Ctrl);

impl Word {
    /// A word is well formed when its address is.
    pub open spec fn wf(self) -> bool {
        self.1.wf()
    }

    /// The word that the low 12 bits of `bin` encode.
    pub open spec fn decode(bin: u32) -> Word {
        Word(Inst::decode(bin), Addr::decode(bin), Ctrl::decode(bin))
    }

    /// The word's 12-bit encoding: instruction code in bits 8..=11, address
    /// in bits 2..=7, control code in bits 0..=1.
    pub open spec fn encode(self) -> u32 {
        self.0.code() << INST_POS | self.1.value() << ADDR_POS | self.2.code()
    }

    /// get the inst from the word
    pub fn inst(&self) -> (inst: Inst)
        ensures
            inst == self.0,
    {
        self.0
    }

    /// create a new word with the provided inst
    pub fn with_inst(self, inst: Inst) -> (word: Word)
        ensures
            word == Word(inst, self.1, self.2),
    {
        Word(inst, self.1, self.2)
    }

    /// get the addr from the word
    pub fn addr(&self) -> (addr: Addr)
        ensures
            addr == self.1,
    {
        self.1
    }

    /// create a new word with the provided addr
    pub fn with_addr(self, addr: Addr) -> (word: Word)
        ensures
            word == Word(self.0, addr, self.2),
    {
        Word(self.0, addr, self.2)
    }

    /// get the ctrl from the word
    pub fn ctrl(&self) -> (ctrl: Ctrl)
        ensures
            ctrl == self.2,
    {
        self.2
    }

    /// create a new word with the provided ctrl
    pub fn with_ctrl(self, ctrl: Ctrl) -> (word: Word)
        ensures
            word == Word(self.0, self.1, ctrl),
    {
        Word(self.0, self.1, ctrl)
    }
}

impl From<u32> for Word {
    fn from(bin: u32) -> (word: Word)
        ensures
            word == Word::decode(bin),
    {
        let inst = Inst::from(bin);
        let addr = Addr::from(bin);
        let ctrl = Ctrl::from(bin);

        Word(inst, addr, ctrl)
    }
}

impl vstd::std_specs::convert::FromSpecImpl<u32> for Word {
    open spec fn obeys_from_spec() -> bool {
        true
    }

    open spec fn from_spec(bin: u32) -> Word {
        Word::decode(bin)
    }
}

impl From<Word> for u32 {
    fn from(word: Word) -> (bin: u32)
        ensures
            bin == word.encode(),
            bin < 4096,
    {
        let Word(inst, addr, ctrl) = word;
        proof {
            use_type_invariant(&addr);
            lemma_word_round_trip(word);
        }

        inst.val() << INST_POS | addr.val() << ADDR_POS | ctrl.val()
    }
}

impl vstd::std_specs::convert::FromSpecImpl<Word> for u32 {
    open spec fn obeys_from_spec() -> bool {
        true
    }

    open spec fn from_spec(word: Word) -> u32 {
        word.encode()
    }
}

/// A sequence of code words.
#[derive(Debug, Clone, PartialEq)]
pub struct Words(pub Vec<Word>);

/// One element of a program: a code word or the text of a comment line.
#[derive(Debug, Clone, PartialEq)]
pub enum Node {
    Word(Inst, Addr, Ctrl),
    Comment(String),
}

/// What a node stands for: a word, or a comment's characters.
pub enum NodeView {
    Word(Word),
    Comment(Seq<char>),
}

impl View for Node {
    type V = NodeView;

    open spec fn view(&self) -> NodeView {
        match self {
            Node::Word(inst, addr, ctrl) => NodeView::Word(Word(*inst, *addr, *ctrl)),
            Node::Comment(text) => NodeView::Comment(text@),
        }
    }
}

impl Node {
    /// The node's word, where it is one.
    pub fn word(&self) -> (word: Option<Word>)
        ensures
            word == match self@ {
                NodeView::Word(w) => Some(w),
                NodeView::Comment(_) => None,
            },
    {
        match self {
            Node::Word(inst, addr, ctrl) => Some(Word(*inst, *addr, *ctrl)),
            Node::Comment(_) => None,
        }
    }
}

impl From<Word> for Node {
    fn from(word: Word) -> (node: Node)
        ensures
            node@ == NodeView::Word(word),
    {
        let Word(inst, addr, ctrl) = word;

        Node::Word(inst, addr, ctrl)
    }
}

impl vstd::std_specs::convert::FromSpecImpl<Word> for Node {
    open spec fn obeys_from_spec() -> bool {
        true
    }

    open spec fn from_spec(word: Word) -> Node {
        Node::Word(word.0, word.1, word.2)
    }
}

/// The words among `nodes`, in order; comments leave no trace.
pub open spec fn words_of(nodes: Seq<NodeView>) -> Seq<Word> {
    nodes.filter_map(
        |node: NodeView|
            match node {
                NodeView::Word(word) => Some(word),
                NodeView::Comment(_) => None,
            },
    )
}

/// Taking one more node adds its word, where it is one, to the words.
pub proof fn lemma_words_of_step(nodes: Seq<NodeView>, at: int)
    requires
        0 <= at < nodes.len(),
    ensures
        words_of(nodes.take(at + 1)) == match nodes[at] {
            NodeView::Word(word) => words_of(nodes.take(at)).push(word),
            NodeView::Comment(_) => words_of(nodes.take(at)),
        },
{
    let pick = |node: NodeView|
        match node {
            NodeView::Word(word) => Some(word),
            NodeView::Comment(_) => None,
        };
    nodes.lemma_filter_map_take_succ(pick, at);
}

/// A program: its nodes in source order.
#[derive(Debug, Clone, PartialEq)]
pub struct Nodes(pub Vec<Node>);

impl View for Nodes {
    type V = Seq<NodeView>;

    open spec fn view(&self) -> Seq<NodeView> {
        Seq::new(self.0@.len(), |i: int| self.0@[i]@)
    }
}

impl Nodes {
    /// The words of the program, in order.
    pub fn words(&self) -> (words: Words)
        ensures
            words.0@ == words_of(self@),
    {
        let mut words: Vec<Word> = Vec::new();
        let mut done: usize = 0;
        while done < self.0.len()
            invariant
                done <= self.0.len(),
                words@ == words_of(self@.take(done as int)),
            decreases self.0.len() - done,
        {
            proof {
                lemma_words_of_step(self@, done as int);
            }
            if let Some(word) = self.0[done].word() {
                words.push(word);
            }
            done += 1;
        }
        assert(self@.take(done as int) == self@);
        Words(words)
    }
}

/// Every instruction has a code below 16, and is the instruction of its
/// code.
pub proof fn lemma_inst_code(kind: InstKind)
    ensures
        kind.code() < 16,
        InstKind::with_code(kind.code()) == kind,
{
}

/// Every control has a code below 4, and is the control of its code.
pub proof fn lemma_ctrl_code(kind: CtrlKind)
    ensures
        kind.code() < 4,
        CtrlKind::with_code(kind.code()) == kind,
{
}

/// A 4-bit value put into the instruction field is the code of the
/// instruction that decoding finds there.
pub proof fn lemma_inst_round_trip(code: u32)
    requires
        code < 16,
    ensures
        Inst::decode(code << INST_POS).code() == code,
{
    assert(((code << 8u32) & 0xf00u32) >> 8u32 == code) by (bit_vector)
        requires
            code < 16,
    ;
}

/// A 6-bit value put into the address field is the value of the address
/// that decoding finds there, with the mode of that value.
pub proof fn lemma_addr_round_trip(value: u32)
    requires
        value < 64,
    ensures
        Addr::decode(value << ADDR_POS).value() == value,
        Addr::decode(value << ADDR_POS).mode() == AddrKind::classify(value),
        Addr::decode(value << ADDR_POS).wf(),
{
    Addr::lemma_decode(value << ADDR_POS);
    assert(((value << 2u32) & 0xfcu32) >> 2u32 == value) by (bit_vector)
        requires
            value < 64,
    ;
}

/// A 2-bit value put into the control field is the code of the control
/// that decoding finds there.
pub proof fn lemma_ctrl_round_trip(code: u32)
    requires
        code < 4,
    ensures
        Ctrl::decode(code).code() == code,
{
    assert(code & 0x3u32 == code) by (bit_vector)
        requires
            code < 4,
    ;
}

/// A word's encoding has its three fields side by side and nothing above
/// bit 11, and decodes to the word.
pub proof fn lemma_word_round_trip(word: Word)
    requires
        word.wf(),
    ensures
        word.encode() == word.0.code() * 256 + word.1.value() * 4 + word.2.code(),
        word.encode() < 4096,
        Word::decode(word.encode()) == word,
{
    let inst = word.0.code();
    let addr = word.1.value();
    let ctrl = word.2.code();
    let bin = word.encode();
    lemma_inst_code(word.0.0);
    lemma_ctrl_code(word.2.0);
    word.1.lemma_wf();
    Addr::lemma_decode(bin);
    Addr::lemma_decode(addr << ADDR_POS);
    assert(inst << 8u32 | addr << 2u32 | ctrl == inst * 256 + addr * 4 + ctrl) by (bit_vector)
        requires
            inst < 16,
            addr < 64,
            ctrl < 4,
    ;
    assert(((inst << 8u32 | addr << 2u32 | ctrl) & 0xf00u32) >> 8u32 == inst) by (bit_vector)
        requires
            inst < 16,
            addr < 64,
            ctrl < 4,
    ;
    assert(((inst << 8u32 | addr << 2u32 | ctrl) & 0xfcu32) >> 2u32 == addr) by (bit_vector)
        requires
            inst < 16,
            addr < 64,
            ctrl < 4,
    ;
    assert((inst << 8u32 | addr << 2u32 | ctrl) & 0x3u32 == ctrl) by (bit_vector)
        requires
            inst < 16,
            addr < 64,
            ctrl < 4,
    ;
    Addr::lemma_same(Addr::decode(bin), word.1);
}

/// Decoding reads the low twelve bits only, and encoding the decoded word
/// gives them back.
pub proof fn lemma_word_of_bits(bin: u32)
    ensures
        Word::decode(bin).wf(),
        Word::decode(bin).encode() == bin & 0xfff,
        Word::decode(bin) == Word::decode(bin & 0xfff),
{
    let inst = (bin & INST_MASK) >> INST_POS;
    let addr = (bin & ADDR_MASK) >> ADDR_POS;
    let ctrl = bin & CTRL_MASK;
    Addr::lemma_decode(bin);
    Addr::lemma_decode(bin & 0xfff);
    assert(((bin & 0xf00u32) >> 8u32) < 16 && ((bin & 0xfcu32) >> 2u32) < 64 && (bin & 0x3u32) < 4)
        by (bit_vector);
    assert(((bin & 0xf00u32) >> 8u32) << 8u32 | ((bin & 0xfcu32) >> 2u32) << 2u32 | (bin & 0x3u32)
        == bin & 0xfffu32) by (bit_vector);
    assert(((bin & 0xfffu32) & 0xf00u32) == (bin & 0xf00u32) && ((bin & 0xfffu32) & 0xfcu32) == (bin
        & 0xfcu32) && ((bin & 0xfffu32) & 0x3u32) == (bin & 0x3u32)) by (bit_vector);
    lemma_inst_code(InstKind::with_code(inst));
    lemma_ctrl_code(CtrlKind::with_code(ctrl));
    Addr::lemma_same(Addr::decode(bin), Addr::decode(bin & 0xfff));
}

/// Two well-formed words with the same encoding are the same word.
pub proof fn lemma_encode_injective(a: Word, b: Word)
    requires
        a.wf(),
        b.wf(),
        a.encode() == b.encode(),
    ensures
        a == b,
{
    lemma_word_round_trip(a);
    lemma_word_round_trip(b);
}

} // verus!
