//! The grammar of assembly text, as functions on a sequence of characters.
//!
//! ```text
//! program  := white* (line (blank* line)*)? white*
//! line     := comment | word
//! comment  := ';' text line-end
//! word     := mnemonic blank+ numeral blank+ numeral line-end
//! line-end := "\n" | "\r\n" | end of input
//! numeral  := "0b" [01]{1,32} | "0o" [0-7]{1,11} | "0h" [0-9a-fA-F]{1,8}
//! ```
//!
//! `white` is any white space, `blank` any but the line feed. So a line may
//! be indented, and white space may surround the program, but a line of
//! nothing but blanks between two lines is a failure.
//!
//! A position is an index into the characters. Each function takes the
//! position at which its construct has to start, and gives what it found
//! with the position behind it, or the failure.
use super::parser::{ParserError, SyntaxError};
use crate::data::{Addr, Ctrl, Inst, InstKind, NodeView, Word, ADDR_POS};
use crate::text::{is_whitespace, white_end};
use vstd::prelude::*;

verus! {

/// White space that does not end a line: what may stand between the fields
/// of a word and in front of a line's content.
pub open spec fn is_blank(c: char) -> bool {
    is_whitespace(c) && c != '\n'
}

/// The first position from `at` on that holds no blank, or the end.
pub open spec fn blank_end(s: Seq<char>, at: int) -> int
    decreases s.len() - at,
{
    if 0 <= at < s.len() && is_blank(s[at]) {
        blank_end(s, at + 1)
    } else {
        at
    }
}

/// The position of the first line feed from `at` on, or the end.
pub open spec fn line_stop(s: Seq<char>, at: int) -> int
    decreases s.len() - at,
{
    if 0 <= at < s.len() && s[at] != '\n' {
        line_stop(s, at + 1)
    } else {
        at
    }
}

/// The end of `s[from..to]` once the white space at its end is taken off.
pub open spec fn trimmed_end(s: Seq<char>, from: int, to: int) -> int
    decreases to - from,
{
    if from < to <= s.len() && is_whitespace(s[to - 1]) {
        trimmed_end(s, from, to - 1)
    } else {
        to
    }
}

/// The value of `c` as a digit of the base `radix` (at most 16), if it is
/// one.
pub open spec fn digit_of(c: char, radix: nat) -> Option<nat> {
    let value = if '0' <= c <= '9' {
        c as int - '0' as int
    } else if 'a' <= c <= 'f' {
        c as int - 'a' as int + 10
    } else if 'A' <= c <= 'F' {
        c as int - 'A' as int + 10
    } else {
        16
    };
    if value < radix {
        Some(value as nat)
    } else {
        None
    }
}

/// The end of the run of digits that starts at `at`, cut off after `most`
/// digits.
pub open spec fn digits_end(s: Seq<char>, at: int, radix: nat, most: nat) -> int
    decreases most,
{
    if most > 0 && 0 <= at < s.len() && digit_of(s[at], radix) is Some {
        digits_end(s, at + 1, radix, (most - 1) as nat)
    } else {
        at
    }
}

/// The number that the digits `s[from..to]` spell in the base `radix`.
pub open spec fn digits_value(s: Seq<char>, from: int, to: int, radix: nat) -> nat
    decreases to - from,
{
    if to <= from {
        0
    } else {
        digits_value(s, from, to - 1, radix) * radix + digit_of(s[to - 1], radix).unwrap()
    }
}

/// A numeral of one base at `at`: `0`, the base's letter, then at least
/// one and at most `most` digits; a digit beyond that is not part of it.
/// The value has to fit in 32 bits.
pub open spec fn based(s: Seq<char>, at: int, letter: char, radix: nat, most: nat) -> Option<
    (u32, int),
> {
    if 0 <= at && at + 2 <= s.len() && s[at] == '0' && s[at + 1] == letter {
        let end = digits_end(s, at + 2, radix, most);
        let value = digits_value(s, at + 2, end, radix);
        if end > at + 2 && value <= u32::MAX {
            Some((value as u32, end))
        } else {
            None
        }
    } else {
        None
    }
}

pub open spec fn binary(s: Seq<char>, at: int) -> Option<(u32, int)> {
    based(s, at, 'b', 2, 32)
}

pub open spec fn octal(s: Seq<char>, at: int) -> Option<(u32, int)> {
    based(s, at, 'o', 8, 11)
}

pub open spec fn hexadecimal(s: Seq<char>, at: int) -> Option<(u32, int)> {
    based(s, at, 'h', 16, 8)
}

/// A numeral at `at`: binary, else octal, else hexadecimal.
pub open spec fn numeral(s: Seq<char>, at: int) -> Option<(u32, int)> {
    if binary(s, at) is Some {
        binary(s, at)
    } else if octal(s, at) is Some {
        octal(s, at)
    } else {
        hexadecimal(s, at)
    }
}

/// The lower-case form of an ASCII capital; any other character itself.
pub open spec fn lower(c: char) -> char {
    if 'A' <= c <= 'Z' {
        ((c as u8) + 32) as char
    } else {
        c
    }
}

/// The capital of an ASCII lower-case letter; any other character itself.
pub open spec fn upper(c: char) -> char {
    if 'a' <= c <= 'z' {
        ((c as u8) - 32) as char
    } else {
        c
    }
}

/// Whether `text` stands at `at`.
pub open spec fn starts_with(s: Seq<char>, at: int, text: Seq<char>) -> bool {
    0 <= at && at + text.len() <= s.len() && s.subrange(at, at + text.len()) == text
}

/// Whether `name` stands at `at` as it is written, all in lower case or all
/// in capitals. No other mix of cases counts.
pub open spec fn spelled(s: Seq<char>, at: int, name: Seq<char>) -> bool {
    ||| starts_with(s, at, name)
    ||| starts_with(s, at, name.map_values(|c: char| lower(c)))
    ||| starts_with(s, at, name.map_values(|c: char| upper(c)))
}

/// The mnemonic of an instruction as the parser knows it.
pub open spec fn spelling(kind: InstKind) -> Seq<char> {
    match kind {
        InstKind::Nop0 => "Nop0"@,
        InstKind::Ld => "Ld"@,
        InstKind::Add => "Add"@,
        InstKind::Sub => "Sub"@,
        InstKind::One => "One"@,
        InstKind::Nand => "Nand"@,
        InstKind::Or => "Or"@,
        InstKind::Xor => "Xor"@,
        InstKind::StoC => "StoC"@,
        InstKind::Sto => "Sto"@,
        InstKind::Ien => "Ien"@,
        InstKind::Oen => "Oen"@,
        InstKind::Ioc => "Ioc"@,
        InstKind::Rtn => "Rtn"@,
        InstKind::Skz => "Skz"@,
        InstKind::NopF => "NopF"@,
    }
}

/// The order in which the mnemonics are tried: that of the codes, but
/// `StoC` before `Sto`, which is its beginning.
pub open spec fn trial(index: int) -> InstKind {
    if index == 8 {
        InstKind::StoC
    } else if index == 9 {
        InstKind::Sto
    } else {
        InstKind::with_code(index as u32)
    }
}

/// The first instruction, from the trial `from` on, whose mnemonic stands
/// at `at`.
pub open spec fn first_spelled(s: Seq<char>, at: int, from: int) -> Option<InstKind>
    decreases 16 - from,
{
    if from < 0 || from >= 16 {
        None
    } else if spelled(s, at, spelling(trial(from))) {
        Some(trial(from))
    } else {
        first_spelled(s, at, from + 1)
    }
}

/// The failure `message` at the position `at`.
pub open spec fn failure<T>(message: SyntaxError, at: int) -> Result<T, ParserError> {
    Err(ParserError { message, offset: at as usize })
}

/// One mnemonic at `at`: the instruction if its name stands there, else the
/// failure that names it.
pub open spec fn inst_item(s: Seq<char>, at: int, inst: Inst, name: Seq<char>) -> Result<
    (Inst, int),
    ParserError,
> {
    if spelled(s, at, name) {
        Ok((inst, at + name.len()))
    } else {
        failure(SyntaxError::ExpectedInst(inst), at)
    }
}

/// The instruction field at `at`. Where no mnemonic stands there, the
/// failure names the instruction that was tried first.
pub open spec fn inst(s: Seq<char>, at: int) -> Result<(Inst, int), ParserError> {
    match first_spelled(s, at, 0) {
        Some(kind) => Ok((Inst(kind), at + spelling(kind).len())),
        None => failure(SyntaxError::ExpectedInst(Inst(trial(0))), at),
    }
}

/// The address field at `at`: a numeral, of which the six low bits count.
pub open spec fn addr(s: Seq<char>, at: int) -> Result<(Addr, int), ParserError> {
    match numeral(s, at) {
        Some((value, end)) => Ok((Addr::decode(value << ADDR_POS), end)),
        None => failure(SyntaxError::ExpectedAddr, at),
    }
}

/// The control field at `at`: a numeral, of which the two low bits count.
pub open spec fn ctrl(s: Seq<char>, at: int) -> Result<(Ctrl, int), ParserError> {
    match numeral(s, at) {
        Some((value, end)) => Ok((Ctrl::decode(value), end)),
        None => failure(SyntaxError::ExpectedCtrl, at),
    }
}

/// The blanks between two fields of a word: at least one. Gives the
/// position behind them.
pub open spec fn gap(s: Seq<char>, at: int) -> Result<int, ParserError> {
    if at >= s.len() {
        failure(SyntaxError::UnexpectedEoi, at)
    } else if at < 0 || !is_blank(s[at]) {
        failure(SyntaxError::ExpectedWord, at)
    } else {
        Ok(blank_end(s, at))
    }
}

/// The end of a line at `at`: a line feed, a carriage return with a line
/// feed, or the end of the input. Gives the position behind it.
pub open spec fn newline(s: Seq<char>, at: int) -> Option<int> {
    if at >= s.len() {
        Some(at)
    } else if at < 0 {
        None
    } else if s[at] == '\n' {
        Some(at + 1)
    } else if s[at] == '\r' && at + 1 < s.len() && s[at + 1] == '\n' {
        Some(at + 2)
    } else {
        None
    }
}

/// A word line at `at`: mnemonic, address and control, with blanks
/// between them and the end of the line right behind the control.
pub open spec fn word(s: Seq<char>, at: int) -> Result<(NodeView, int), ParserError> {
    match inst(s, at) {
        Err(error) => Err(error),
        Ok((inst, after_inst)) => match gap(s, after_inst) {
            Err(error) => Err(error),
            Ok(at_addr) => match addr(s, at_addr) {
                Err(error) => Err(error),
                Ok((addr, after_addr)) => match gap(s, after_addr) {
                    Err(error) => Err(error),
                    Ok(at_ctrl) => match ctrl(s, at_ctrl) {
                        Err(error) => Err(error),
                        Ok((ctrl, after_ctrl)) => match newline(s, after_ctrl) {
                            None => failure(SyntaxError::ExpectedWord, after_ctrl),
                            Some(end) => Ok((NodeView::Word(Word(inst, addr, ctrl)), end)),
                        },
                    },
                },
            },
        },
    }
}

/// A comment line at `at`: a semicolon, then the text up to the end of the
/// line. The text keeps the white space at its start and loses that at its
/// end.
pub open spec fn comment(s: Seq<char>, at: int) -> Result<(NodeView, int), ParserError> {
    if 0 <= at < s.len() && s[at] == ';' {
        let stop = line_stop(s, at + 1);
        let text = s.subrange(at + 1, trimmed_end(s, at + 1, stop));
        Ok(
            (
                NodeView::Comment(text),
                if stop < s.len() {
                    stop + 1
                } else {
                    stop
                },
            ),
        )
    } else {
        failure(SyntaxError::ExpectedComment, at)
    }
}

/// One line of a program at `at`: a comment where a semicolon stands
/// there, else a word.
pub open spec fn item(s: Seq<char>, at: int) -> Result<(NodeView, int), ParserError> {
    if 0 <= at < s.len() && s[at] == ';' {
        comment(s, at)
    } else {
        word(s, at)
    }
}

/// The lines of a program from `at` on, where `at` holds the first
/// character of a line's content. Blanks in front of the next line's content
/// are passed over; so is white space that reaches the end of the input. A
/// line of nothing but blanks in between is no line of the grammar: the
/// next item is looked for at its line feed, and fails there.
pub open spec fn items(s: Seq<char>, at: int) -> Result<Seq<NodeView>, ParserError>
    decreases s.len() - at,
    via items_advance
{
    match item(s, at) {
        Err(error) => Err(error),
        Ok((node, end)) => {
            let next = blank_end(s, end);
            if white_end(s, next) >= s.len() {
                Ok(seq![node])
            } else {
                match items(s, next) {
                    Err(error) => Err(error),
                    Ok(rest) => Ok(seq![node] + rest),
                }
            }
        },
    }
}

/// A whole program: white space, lines, white space.
pub open spec fn program(s: Seq<char>) -> Result<Seq<NodeView>, ParserError> {
    let start = white_end(s, 0);
    if start >= s.len() {
        Ok(Seq::empty())
    } else {
        items(s, start)
    }
}

/// Each step of `items` goes on behind the item that it read.
#[via_fn]
proof fn items_advance(s: Seq<char>, at: int) {
    lemma_item_advances(s, at);
    if let Ok((_, end)) = item(s, at) {
        lemma_blank_end(s, end);
    }
}

/// Passing over blanks does not go back, nor beyond the end.
pub proof fn lemma_blank_end(s: Seq<char>, at: int)
    ensures
        at <= blank_end(s, at),
        at <= s.len() ==> blank_end(s, at) <= s.len(),
    decreases s.len() - at,
{
    if 0 <= at < s.len() && is_blank(s[at]) {
        lemma_blank_end(s, at + 1);
    }
}

/// Looking for the line feed does not go back, nor beyond the end.
pub proof fn lemma_line_stop(s: Seq<char>, at: int)
    ensures
        at <= line_stop(s, at),
        at <= s.len() ==> line_stop(s, at) <= s.len(),
    decreases s.len() - at,
{
    if 0 <= at < s.len() && s[at] != '\n' {
        lemma_line_stop(s, at + 1);
    }
}

/// A run of digits does not go back, nor beyond the end.
pub proof fn lemma_digits_end(s: Seq<char>, at: int, radix: nat, most: nat)
    ensures
        at <= digits_end(s, at, radix, most) <= at + most,
        at <= s.len() ==> digits_end(s, at, radix, most) <= s.len(),
    decreases most,
{
    if most > 0 && 0 <= at < s.len() && digit_of(s[at], radix) is Some {
        lemma_digits_end(s, at + 1, radix, (most - 1) as nat);
    }
}

/// A numeral has its prefix and a digit at least, and ends within the
/// input.
pub proof fn lemma_numeral_advances(s: Seq<char>, at: int)
    ensures
        numeral(s, at) matches Some((_, end)) ==> 0 <= at && at + 2 < end <= s.len(),
{
    lemma_digits_end(s, at + 2, 2, 32);
    lemma_digits_end(s, at + 2, 8, 11);
    lemma_digits_end(s, at + 2, 16, 8);
}

/// A mnemonic has two characters at least, and ends within the input.
pub proof fn lemma_inst_advances(s: Seq<char>, at: int)
    ensures
        inst(s, at) matches Ok((_, end)) ==> 0 <= at && at + 2 <= end <= s.len(),
{
    lemma_first_spelled(s, at, 0);
}

/// What `first_spelled` finds is a mnemonic that stands at `at`.
proof fn lemma_first_spelled(s: Seq<char>, at: int, from: int)
    ensures
        first_spelled(s, at, from) matches Some(kind) ==> spelled(s, at, spelling(kind))
            && spelling(kind).len() >= 2,
    decreases 16 - from,
{
    if 0 <= from < 16 {
        if spelled(s, at, spelling(trial(from))) {
            lemma_spelling_len(trial(from));
        } else {
            lemma_first_spelled(s, at, from + 1);
        }
    }
}

/// Every mnemonic has from two to four characters.
pub proof fn lemma_spelling_len(kind: InstKind)
    ensures
        2 <= spelling(kind).len() <= 4,
{
    reveal_strlit("Nop0");
    reveal_strlit("Ld");
    reveal_strlit("Add");
    reveal_strlit("Sub");
    reveal_strlit("One");
    reveal_strlit("Nand");
    reveal_strlit("Or");
    reveal_strlit("Xor");
    reveal_strlit("StoC");
    reveal_strlit("Sto");
    reveal_strlit("Ien");
    reveal_strlit("Oen");
    reveal_strlit("Ioc");
    reveal_strlit("Rtn");
    reveal_strlit("Skz");
    reveal_strlit("NopF");
}

/// A line that was read has one character at least, and ends within the
/// input.
pub proof fn lemma_item_advances(s: Seq<char>, at: int)
    ensures
        item(s, at) matches Ok((_, end)) ==> 0 <= at < end <= s.len(),
{
    if 0 <= at < s.len() && s[at] == ';' {
        lemma_line_stop(s, at + 1);
    } else {
        lemma_inst_advances(s, at);
        if let Ok((_, after_inst)) = inst(s, at) {
            lemma_blank_end(s, after_inst);
            if let Ok(at_addr) = gap(s, after_inst) {
                lemma_numeral_advances(s, at_addr);
                if let Ok((_, after_addr)) = addr(s, at_addr) {
                    lemma_blank_end(s, after_addr);
                    if let Ok(at_ctrl) = gap(s, after_addr) {
                        lemma_numeral_advances(s, at_ctrl);
                    }
                }
            }
        }
    }
}

/// Whether every word among `nodes` is well formed.
pub open spec fn words_wf(nodes: Seq<NodeView>) -> bool {
    forall|i: int|
        0 <= i < nodes.len() ==> (#[trigger] nodes[i] matches NodeView::Word(word) ==> word.wf())
}

/// The word that a word line gives is well formed.
pub proof fn lemma_word_wf(s: Seq<char>, at: int)
    ensures
        word(s, at) matches Ok((NodeView::Word(word), _)) ==> word.wf(),
        word(s, at) matches Ok((node, _)) ==> node is Word,
{
    if let Ok((_, after_inst)) = inst(s, at) {
        if let Ok(at_addr) = gap(s, after_inst) {
            if let Some((value, _)) = numeral(s, at_addr) {
                Addr::lemma_decode(value << ADDR_POS);
            }
        }
    }
}

/// The words that the lines from `at` on give are well formed.
pub proof fn lemma_items_wf(s: Seq<char>, at: int)
    ensures
        items(s, at) matches Ok(nodes) ==> words_wf(nodes),
    decreases s.len() - at,
{
    lemma_item_advances(s, at);
    lemma_word_wf(s, at);
    if let Ok((node, end)) = item(s, at) {
        lemma_blank_end(s, end);
        let next = blank_end(s, end);
        if white_end(s, next) < s.len() {
            lemma_items_wf(s, next);
            if let Ok(rest) = items(s, next) {
                let nodes = seq![node] + rest;
                assert forall|i: int| 0 <= i < nodes.len() implies (#[trigger] nodes[i] matches NodeView::Word(
                    word,
                ) ==> word.wf()) by {
                    if i > 0 {
                        assert(nodes[i] == rest[i - 1]);
                    }
                }
            }
        }
    }
}

/// The words of a program that was read are well formed.
pub proof fn lemma_program_wf(s: Seq<char>)
    ensures
        program(s) matches Ok(nodes) ==> words_wf(nodes),
{
    let start = white_end(s, 0);
    if start < s.len() {
        lemma_items_wf(s, start);
    }
}

/// Lower case of capitals is lower case, and lower case stays lower case.
pub proof fn lemma_lower(c: char)
    ensures
        lower(upper(c)) == lower(c),
        lower(lower(c)) == lower(c),
{
}

/// Where `name` stands at `at` in one of its spellings, the characters
/// there are those of `name` but for their case. (Stated of the places 0, 1
/// and 3, which tell all mnemonics but `Sto` and `StoC` apart.)
proof fn lemma_spelled_letters(s: Seq<char>, at: int, name: Seq<char>)
    ensures
        spelled(s, at, name) ==> 0 <= at && at + name.len() <= s.len(),
        spelled(s, at, name) && name.len() > 0 ==> lower(s[at]) == lower(name[0]),
        spelled(s, at, name) && name.len() > 1 ==> lower(s[at + 1]) == lower(name[1]),
        spelled(s, at, name) && name.len() > 3 ==> lower(s[at + 3]) == lower(name[3]),
{
    if spelled(s, at, name) {
        let low = name.map_values(|c: char| lower(c));
        let up = name.map_values(|c: char| upper(c));
        let found = s.subrange(at, at + name.len());
        assert forall|k: int| 0 <= k < name.len() implies lower(s[at + k]) == lower(name[k]) by {
            lemma_lower(name[k]);
            assert(found[k] == s[at + k]);
            if starts_with(s, at, name) {
                assert(found[k] == name[k]);
            } else if starts_with(s, at, low) {
                assert(found[k] == low[k]);
            } else {
                assert(found[k] == up[k]);
            }
        }
    }
}

/// In lower case, the mnemonic that the parser knows is the instruction's
/// canonical name.
pub proof fn lemma_spelling_lower(kind: InstKind)
    ensures
        spelling(kind).map_values(|c: char| lower(c)) == kind.mnemonic(),
{
    reveal_strlit("Nop0");
    reveal_strlit("Ld");
    reveal_strlit("Add");
    reveal_strlit("Sub");
    reveal_strlit("One");
    reveal_strlit("Nand");
    reveal_strlit("Or");
    reveal_strlit("Xor");
    reveal_strlit("StoC");
    reveal_strlit("Sto");
    reveal_strlit("Ien");
    reveal_strlit("Oen");
    reveal_strlit("Ioc");
    reveal_strlit("Rtn");
    reveal_strlit("Skz");
    reveal_strlit("NopF");
    reveal_strlit("nop0");
    reveal_strlit("ld");
    reveal_strlit("add");
    reveal_strlit("sub");
    reveal_strlit("one");
    reveal_strlit("nand");
    reveal_strlit("or");
    reveal_strlit("xor");
    reveal_strlit("stoc");
    reveal_strlit("sto");
    reveal_strlit("ien");
    reveal_strlit("oen");
    reveal_strlit("ioc");
    reveal_strlit("rtn");
    reveal_strlit("skz");
    reveal_strlit("nopf");
}

/// The mnemonics do not depend on case, and none is taken for another: a
/// mnemonic that stands at `at` as the parser knows it, in lower case or in
/// capitals is read as its instruction. `Sto` is the beginning of `StoC`,
/// and is read only where the text does not go on to spell that.
pub proof fn lemma_mnemonic_cases(s: Seq<char>, at: int, kind: InstKind)
    requires
        spelled(s, at, spelling(kind)),
        kind == InstKind::Sto ==> !spelled(s, at, spelling(InstKind::StoC)),
    ensures
        inst(s, at) == Ok::<(Inst, int), ParserError>((Inst(kind), at + spelling(kind).len())),
{
    reveal_strlit("Nop0");
    reveal_strlit("Ld");
    reveal_strlit("Add");
    reveal_strlit("Sub");
    reveal_strlit("One");
    reveal_strlit("Nand");
    reveal_strlit("Or");
    reveal_strlit("Xor");
    reveal_strlit("StoC");
    reveal_strlit("Sto");
    reveal_strlit("Ien");
    reveal_strlit("Oen");
    reveal_strlit("Ioc");
    reveal_strlit("Rtn");
    reveal_strlit("Skz");
    reveal_strlit("NopF");
    lemma_spelled_letters(s, at, spelling(InstKind::Nop0));
    lemma_spelled_letters(s, at, spelling(InstKind::Ld));
    lemma_spelled_letters(s, at, spelling(InstKind::Add));
    lemma_spelled_letters(s, at, spelling(InstKind::Sub));
    lemma_spelled_letters(s, at, spelling(InstKind::One));
    lemma_spelled_letters(s, at, spelling(InstKind::Nand));
    lemma_spelled_letters(s, at, spelling(InstKind::Or));
    lemma_spelled_letters(s, at, spelling(InstKind::Xor));
    lemma_spelled_letters(s, at, spelling(InstKind::StoC));
    lemma_spelled_letters(s, at, spelling(InstKind::Sto));
    lemma_spelled_letters(s, at, spelling(InstKind::Ien));
    lemma_spelled_letters(s, at, spelling(InstKind::Oen));
    lemma_spelled_letters(s, at, spelling(InstKind::Ioc));
    lemma_spelled_letters(s, at, spelling(InstKind::Rtn));
    lemma_spelled_letters(s, at, spelling(InstKind::Skz));
    lemma_spelled_letters(s, at, spelling(InstKind::NopF));
    reveal_with_fuel(first_spelled, 17);
}

/// Case does not matter: an instruction's mnemonic as the parser knows it,
/// its canonical lower-case name and the same in capitals are all read as
/// that instruction.
pub proof fn lemma_three_spellings(kind: InstKind)
    ensures
        inst(spelling(kind), 0) == Ok::<(Inst, int), ParserError>(
            (Inst(kind), spelling(kind).len() as int),
        ),
        inst(kind.mnemonic(), 0) == Ok::<(Inst, int), ParserError>(
            (Inst(kind), spelling(kind).len() as int),
        ),
        inst(spelling(kind).map_values(|c: char| upper(c)), 0) == Ok::<(Inst, int), ParserError>(
            (Inst(kind), spelling(kind).len() as int),
        ),
{
    let name = spelling(kind);
    let low = name.map_values(|c: char| lower(c));
    let up = name.map_values(|c: char| upper(c));
    lemma_spelling_lower(kind);
    lemma_spelling_len(kind);
    lemma_spelling_len(InstKind::StoC);
    reveal_strlit("StoC");
    reveal_strlit("Sto");
    assert(name.subrange(0, name.len() as int) =~= name);
    assert(low.subrange(0, name.len() as int) =~= low);
    assert(up.subrange(0, name.len() as int) =~= up);
    lemma_mnemonic_cases(name, 0, kind);
    lemma_mnemonic_cases(low, 0, kind);
    lemma_mnemonic_cases(up, 0, kind);
}

/// The bases are told apart by their prefixes: where a numeral of one base
/// stands, none of another does, so the order of trying them decides
/// nothing.
pub proof fn lemma_one_base(s: Seq<char>, at: int)
    ensures
        binary(s, at) is Some ==> octal(s, at) is None && hexadecimal(s, at) is None,
        octal(s, at) is Some ==> binary(s, at) is None && hexadecimal(s, at) is None,
        hexadecimal(s, at) is Some ==> binary(s, at) is None && octal(s, at) is None,
{
}

} // verus!
