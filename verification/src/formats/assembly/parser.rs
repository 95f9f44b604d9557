//! The parser of assembly text.
use super::grammar;
use crate::data::{Addr, Ctrl, Inst, InstKind, Node, NodeView, Nodes, ADDR_POS};
use crate::text::{characters, skip_white, whitespace};
use vstd::prelude::*;

verus! {

/// What the parser expected where it failed.
#[derive(Debug, Clone, Copy, PartialEq, Eq, Structural)]
pub enum SyntaxError {
    /// No mnemonic stands there. Holds the instruction whose mnemonic was
    /// looked for: the one asked for, or the first of them all.
    ExpectedInst(Inst),
    /// No numeral stands where the address has to.
    ExpectedAddr,
    /// No numeral stands where the control has to.
    ExpectedCtrl,
    /// A word line does not go on as it has to: something other than a
    /// blank follows a field, or something other than the end of the line
    /// follows the control.
    ExpectedWord,
    /// No semicolon stands where a comment has to start.
    ExpectedComment,
    /// The input ends behind a field that another has to follow.
    UnexpectedEoi,
}

/// A failure of the parser: what it expected, and the position of the
/// character at which it did, counted in characters from the start.
#[derive(Debug, Clone, Copy, PartialEq, Eq, Structural)]
pub struct ParserError {
    pub message: SyntaxError,
    pub offset: usize,
}

/// Whether what a parser returned is what the grammar gives: the same value
/// and end, or the same failure.
pub open spec fn agrees<T>(
    run: Result<(T, usize), ParserError>,
    model: Result<(T, int), ParserError>,
) -> bool {
    match run {
        Ok((value, end)) => model == Ok::<(T, int), ParserError>((value, end as int)),
        Err(error) => model == Err::<(T, int), ParserError>(error),
    }
}

/// The same for a parser of nodes, which the grammar knows by their views.
pub open spec fn node_agrees(
    run: Result<(Node, usize), ParserError>,
    model: Result<(NodeView, int), ParserError>,
) -> bool {
    match run {
        Ok((node, end)) => model == Ok::<(NodeView, int), ParserError>((node@, end as int)),
        Err(error) => model == Err::<(NodeView, int), ParserError>(error),
    }
}

/// Whether `c` is white space that does not end a line.
fn blank(c: char) -> (yes: bool)
    ensures
        yes == grammar::is_blank(c),
{
    whitespace(c) && c != '\n'
}

/// The lower-case form of an ASCII capital.
fn to_lower(c: char) -> (low: char)
    ensures
        low == grammar::lower(c),
{
    if 'A' <= c && c <= 'Z' {
        ((c as u8) + 32) as char
    } else {
        c
    }
}

/// The capital of an ASCII lower-case letter.
fn to_upper(c: char) -> (up: char)
    ensures
        up == grammar::upper(c),
{
    if 'a' <= c && c <= 'z' {
        ((c as u8) - 32) as char
    } else {
        c
    }
}

/// The first position from `at` on that holds no blank, or the end.
fn skip_blank(chars: &Vec<char>, at: usize) -> (end: usize)
    requires
        at <= chars.len(),
    ensures
        end == grammar::blank_end(chars@, at as int),
        at <= end <= chars.len(),
{
    let mut end = at;
    while end < chars.len() && blank(chars[end])
        invariant
            at <= end <= chars.len(),
            grammar::blank_end(chars@, at as int) == grammar::blank_end(chars@, end as int),
        decreases chars.len() - end,
    {
        end += 1;
    }
    end
}

/// The value of `c` as a digit of the base `radix`.
fn digit(c: char, radix: u32) -> (value: Option<u32>)
    requires
        radix <= 16,
    ensures
        match value {
            Some(v) => grammar::digit_of(c, radix as nat) == Some(v as nat) && v < radix,
            None => grammar::digit_of(c, radix as nat) is None,
        },
{
    let value: u32 = if '0' <= c && c <= '9' {
        c as u32 - '0' as u32
    } else if 'a' <= c && c <= 'f' {
        c as u32 - 'a' as u32 + 10
    } else if 'A' <= c && c <= 'F' {
        c as u32 - 'A' as u32 + 10
    } else {
        16
    };
    if value < radix {
        Some(value)
    } else {
        None
    }
}

/// One base's numeral at `at`: the prefix, then the digits.
fn based(chars: &Vec<char>, at: usize, letter: char, radix: u32, most: usize) -> (found: Option<
    (u32, usize),
>)
    requires
        at <= chars.len(),
        2 <= radix <= 16,
    ensures
        match found {
            Some((value, end)) => grammar::based(
                chars@,
                at as int,
                letter,
                radix as nat,
                most as nat,
            ) == Some((value, end as int)) && at + 2 < end <= chars.len(),
            None => grammar::based(chars@, at as int, letter, radix as nat, most as nat) is None,
        },
{
    if chars.len() - at < 2 || chars[at] != '0' || chars[at + 1] != letter {
        return None;
    }
    let start = at + 2;
    let mut end = start;
    let mut value: u64 = 0;
    let mut fits = true;
    while end < chars.len() && end - start < most
        invariant
            start == at + 2,
            start <= end <= chars.len(),
            end - start <= most,
            2 <= radix <= 16,
            grammar::digits_end(chars@, start as int, radix as nat, most as nat)
                == grammar::digits_end(
                chars@,
                end as int,
                radix as nat,
                (most - (end - start)) as nat,
            ),
            fits ==> value == grammar::digits_value(
                chars@,
                start as int,
                end as int,
                radix as nat,
            ) && value <= u32::MAX,
            !fits ==> grammar::digits_value(chars@, start as int, end as int, radix as nat)
                > u32::MAX,
        ensures
            grammar::digits_end(chars@, start as int, radix as nat, most as nat) == end,
        decreases chars.len() - end,
    {
        match digit(chars[end], radix) {
            None => break ,
            Some(d) => {
                let ghost before = grammar::digits_value(
                    chars@,
                    start as int,
                    end as int,
                    radix as nat,
                );
                assert(before * (radix as nat) >= before) by (nonlinear_arith)
                    requires
                        radix >= 2,
                ;
                if fits {
                    assert(value * radix + d <= 0xffff_ffff * 16 + 15) by (nonlinear_arith)
                        requires
                            value <= 0xffff_ffff,
                            radix <= 16,
                            d <= 15,
                    ;
                    value = value * (radix as u64) + d as u64;
                    fits = value <= u32::MAX as u64;
                }
                end += 1;
            },
        }
    }
    if end > start && fits {
        Some((value as u32, end))
    } else {
        None
    }
}

/// A binary numeral at `at`: up to 32 digits.
fn bin(chars: &Vec<char>, at: usize) -> (found: Option<(u32, usize)>)
    requires
        at <= chars.len(),
    ensures
        match found {
            Some((value, end)) => grammar::binary(chars@, at as int) == Some((value, end as int))
                && at + 2 < end <= chars.len(),
            None => grammar::binary(chars@, at as int) is None,
        },
{
    based(chars, at, 'b', 2, 32)
}

/// An octal numeral at `at`: up to 11 digits.
fn oct(chars: &Vec<char>, at: usize) -> (found: Option<(u32, usize)>)
    requires
        at <= chars.len(),
    ensures
        match found {
            Some((value, end)) => grammar::octal(chars@, at as int) == Some((value, end as int))
                && at + 2 < end <= chars.len(),
            None => grammar::octal(chars@, at as int) is None,
        },
{
    based(chars, at, 'o', 8, 11)
}

/// A hexadecimal numeral at `at`: up to 8 digits.
fn hex(chars: &Vec<char>, at: usize) -> (found: Option<(u32, usize)>)
    requires
        at <= chars.len(),
    ensures
        match found {
            Some((value, end)) => grammar::hexadecimal(chars@, at as int) == Some(
                (value, end as int),
            ) && at + 2 < end <= chars.len(),
            None => grammar::hexadecimal(chars@, at as int) is None,
        },
{
    based(chars, at, 'h', 16, 8)
}

/// A numeral at `at`: binary, then octal, then hexadecimal, the first that
/// is there.
fn numeral(chars: &Vec<char>, at: usize) -> (found: Option<(u32, usize)>)
    requires
        at <= chars.len(),
    ensures
        match found {
            Some((value, end)) => grammar::numeral(chars@, at as int) == Some((value, end as int))
                && at + 2 < end <= chars.len(),
            None => grammar::numeral(chars@, at as int) is None,
        },
{
    match bin(chars, at) {
        Some(found) => Some(found),
        None => match oct(chars, at) {
            Some(found) => Some(found),
            None => hex(chars, at),
        },
    }
}

/// Whether `text` stands at `at`.
fn starts_with(chars: &Vec<char>, at: usize, text: &Vec<char>) -> (yes: bool)
    requires
        at <= chars.len(),
    ensures
        yes == grammar::starts_with(chars@, at as int, text@),
{
    if text.len() > chars.len() - at {
        return false;
    }
    let mut same: usize = 0;
    while same < text.len()
        invariant
            at + text.len() <= chars.len(),
            same <= text.len(),
            forall|i: int| 0 <= i < same ==> chars@[at + i] == text@[i],
        decreases text.len() - same,
    {
        if chars[at + same] != text[same] {
            return false;
        }
        same += 1;
    }
    assert(chars@.subrange(at as int, at + text.len()) =~= text@);
    true
}

/// `name` in lower case.
fn lowered(name: &Vec<char>) -> (low: Vec<char>)
    ensures
        low@ == name@.map_values(|c: char| grammar::lower(c)),
{
    let mut low: Vec<char> = Vec::new();
    let mut done: usize = 0;
    while done < name.len()
        invariant
            done <= name.len(),
            low@ == name@.take(done as int).map_values(|c: char| grammar::lower(c)),
        decreases name.len() - done,
    {
        low.push(to_lower(name[done]));
        done += 1;
    }
    low
}

/// `name` in capitals.
fn raised(name: &Vec<char>) -> (up: Vec<char>)
    ensures
        up@ == name@.map_values(|c: char| grammar::upper(c)),
{
    let mut up: Vec<char> = Vec::new();
    let mut done: usize = 0;
    while done < name.len()
        invariant
            done <= name.len(),
            up@ == name@.take(done as int).map_values(|c: char| grammar::upper(c)),
        decreases name.len() - done,
    {
        up.push(to_upper(name[done]));
        done += 1;
    }
    up
}

/// One mnemonic at `at`, as it is written, in lower case or in capitals.
fn inst_item_at(inst: Inst, name: &str, chars: &Vec<char>, at: usize) -> (found: Result<
    (Inst, usize),
    ParserError,
>)
    requires
        at <= chars.len(),
    ensures
        agrees(found, grammar::inst_item(chars@, at as int, inst, name@)),
        found matches Ok((_, end)) ==> at + name@.len() == end <= chars.len(),
{
    let name = characters(name);
    let lower_name = lowered(&name);
    let upper_name = raised(&name);

    if starts_with(chars, at, &name) || starts_with(chars, at, &lower_name) || starts_with(
        chars,
        at,
        &upper_name,
    ) {
        Ok((inst, at + name.len()))
    } else {
        Err(ParserError { message: SyntaxError::ExpectedInst(inst), offset: at })
    }
}

/// The mnemonics in the order in which they are tried.
pub const MNEMONICS: [(InstKind, &'static str); 16] = [
    (InstKind::Nop0, "Nop0"),
    (InstKind::Ld, "Ld"),
    (InstKind::Add, "Add"),
    (InstKind::Sub, "Sub"),
    (InstKind::One, "One"),
    (InstKind::Nand, "Nand"),
    (InstKind::Or, "Or"),
    (InstKind::Xor, "Xor"),
    (InstKind::StoC, "StoC"),
    (InstKind::Sto, "Sto"),
    (InstKind::Ien, "Ien"),
    (InstKind::Oen, "Oen"),
    (InstKind::Ioc, "Ioc"),
    (InstKind::Rtn, "Rtn"),
    (InstKind::Skz, "Skz"),
    (InstKind::NopF, "NopF"),
];

/// Row `index` of `MNEMONICS` holds the instruction of that trial and its
/// mnemonic, which has at least two characters.
pub proof fn lemma_mnemonics(index: int)
    requires
        0 <= index < 16,
    ensures
        MNEMONICS[index].0 == grammar::trial(index),
        MNEMONICS[index].1@ == grammar::spelling(grammar::trial(index)),
        grammar::spelling(grammar::trial(index)).len() >= 2,
{
    reveal_strlit("Nop0");
    reveal_strlit("Ld");
    reveal_strlit("Add");
    reveal_strlit("Sub");
    reveal_strlit("One");
    reveal_strlit("Nand");
    reveal_strlit("Or");
    reveal_strlit("Xor");
    reveal_strlit("StoC");
    reveal_strlit("Sto");
    reveal_strlit("Ien");
    reveal_strlit("Oen");
    reveal_strlit("Ioc");
    reveal_strlit("Rtn");
    reveal_strlit("Skz");
    reveal_strlit("NopF");
}

/// The instruction field at `at`: the first mnemonic of `MNEMONICS` that
/// stands there.
fn inst_at(chars: &Vec<char>, at: usize) -> (found: Result<(Inst, usize), ParserError>)
    requires
        at <= chars.len(),
    ensures
        agrees(found, grammar::inst(chars@, at as int)),
        found matches Ok((_, end)) ==> at + 2 <= end <= chars.len(),
{
    let mut trial: usize = 0;
    while trial < 16
        invariant
            at <= chars.len(),
            trial <= 16,
            grammar::first_spelled(chars@, at as int, 0) == grammar::first_spelled(
                chars@,
                at as int,
                trial as int,
            ),
        decreases 16 - trial,
    {
        proof {
            lemma_mnemonics(trial as int);
        }
        let inst = Inst::from(MNEMONICS[trial].0);
        match inst_item_at(inst, MNEMONICS[trial].1, chars, at) {
            Ok(found) => {
                return Ok(found);
            },
            Err(_) => {},
        }
        trial += 1;
    }
    proof {
        lemma_mnemonics(0);
    }
    Err(
        ParserError {
            message: SyntaxError::ExpectedInst(Inst::from(MNEMONICS[0].0)),
            offset: at,
        },
    )
}

/// The address field at `at`.
fn addr_at(chars: &Vec<char>, at: usize) -> (found: Result<(Addr, usize), ParserError>)
    requires
        at <= chars.len(),
    ensures
        agrees(found, grammar::addr(chars@, at as int)),
        found matches Ok((_, end)) ==> at + 2 < end <= chars.len(),
{
    match numeral(chars, at) {
        Some((value, end)) => Ok((Addr::from(value << ADDR_POS), end)),
        None => Err(ParserError { message: SyntaxError::ExpectedAddr, offset: at }),
    }
}

/// The control field at `at`.
fn ctrl_at(chars: &Vec<char>, at: usize) -> (found: Result<(Ctrl, usize), ParserError>)
    requires
        at <= chars.len(),
    ensures
        agrees(found, grammar::ctrl(chars@, at as int)),
        found matches Ok((_, end)) ==> at + 2 < end <= chars.len(),
{
    match numeral(chars, at) {
        Some((value, end)) => Ok((Ctrl::from(value), end)),
        None => Err(ParserError { message: SyntaxError::ExpectedCtrl, offset: at }),
    }
}

/// The blanks between two fields, at least one.
fn gap_at(chars: &Vec<char>, at: usize) -> (found: Result<usize, ParserError>)
    requires
        at <= chars.len(),
    ensures
        match found {
            Ok(end) => grammar::gap(chars@, at as int) == Ok::<int, ParserError>(end as int) && at
                < end <= chars.len(),
            Err(error) => grammar::gap(chars@, at as int) == Err::<int, ParserError>(error),
        },
{
    if at >= chars.len() {
        Err(ParserError { message: SyntaxError::UnexpectedEoi, offset: at })
    } else if !blank(chars[at]) {
        Err(ParserError { message: SyntaxError::ExpectedWord, offset: at })
    } else {
        Ok(skip_blank(chars, at + 1))
    }
}

/// The end of a line at `at`.
fn newline_at(chars: &Vec<char>, at: usize) -> (found: Option<usize>)
    requires
        at <= chars.len(),
    ensures
        match found {
            Some(end) => grammar::newline(chars@, at as int) == Some(end as int) && at <= end
                <= chars.len(),
            None => grammar::newline(chars@, at as int) is None,
        },
{
    if at >= chars.len() {
        Some(at)
    } else if chars[at] == '\n' {
        Some(at + 1)
    } else if chars[at] == '\r' && chars.len() - at > 1 && chars[at + 1] == '\n' {
        Some(at + 2)
    } else {
        None
    }
}

/// A word line at `at`.
fn word_at(chars: &Vec<char>, at: usize) -> (found: Result<(Node, usize), ParserError>)
    requires
        at <= chars.len(),
    ensures
        node_agrees(found, grammar::word(chars@, at as int)),
        found matches Ok((_, end)) ==> at < end <= chars.len(),
{
    let (inst, after_inst) = match inst_at(chars, at) {
        Ok(found) => found,
        Err(error) => {
            return Err(error);
        },
    };
    let at_addr = match gap_at(chars, after_inst) {
        Ok(found) => found,
        Err(error) => {
            return Err(error);
        },
    };
    let (addr, after_addr) = match addr_at(chars, at_addr) {
        Ok(found) => found,
        Err(error) => {
            return Err(error);
        },
    };
    let at_ctrl = match gap_at(chars, after_addr) {
        Ok(found) => found,
        Err(error) => {
            return Err(error);
        },
    };
    let (ctrl, after_ctrl) = match ctrl_at(chars, at_ctrl) {
        Ok(found) => found,
        Err(error) => {
            return Err(error);
        },
    };
    match newline_at(chars, after_ctrl) {
        Some(end) => Ok((Node::Word(inst, addr, ctrl), end)),
        None => Err(ParserError { message: SyntaxError::ExpectedWord, offset: after_ctrl }),
    }
}

/// A comment line at `at`. `text` is the input that `chars` holds.
fn comment_at(text: &str, chars: &Vec<char>, at: usize) -> (found: Result<
    (Node, usize),
    ParserError,
>)
    requires
        text@ == chars@,
        at <= chars.len(),
    ensures
        node_agrees(found, grammar::comment(chars@, at as int)),
        found matches Ok((_, end)) ==> at < end <= chars.len(),
{
    if at >= chars.len() || chars[at] != ';' {
        return Err(ParserError { message: SyntaxError::ExpectedComment, offset: at });
    }
    let start = at + 1;
    let mut stop = start;
    while stop < chars.len() && chars[stop] != '\n'
        invariant
            start <= stop <= chars.len(),
            grammar::line_stop(chars@, start as int) == grammar::line_stop(chars@, stop as int),
        decreases chars.len() - stop,
    {
        stop += 1;
    }
    let mut trimmed = stop;
    while trimmed > start && whitespace(chars[trimmed - 1])
        invariant
            start <= trimmed <= stop <= chars.len(),
            grammar::trimmed_end(chars@, start as int, stop as int) == grammar::trimmed_end(
                chars@,
                start as int,
                trimmed as int,
            ),
        decreases trimmed,
    {
        trimmed -= 1;
    }
    let body = text.substring_char(start, trimmed);
    let end = if stop < chars.len() {
        stop + 1
    } else {
        stop
    };
    Ok((Node::Comment(body.to_owned()), end))
}

/// One line of a program at `at`.
fn item_at(text: &str, chars: &Vec<char>, at: usize) -> (found: Result<(Node, usize), ParserError>)
    requires
        text@ == chars@,
        at <= chars.len(),
    ensures
        node_agrees(found, grammar::item(chars@, at as int)),
        found matches Ok((_, end)) ==> at < end <= chars.len(),
{
    if at < chars.len() && chars[at] == ';' {
        comment_at(text, chars, at)
    } else {
        word_at(chars, at)
    }
}

/// Parses a whole program: its words and comments in the order of the
/// text, or the first failure.
pub fn nodes(input: &str) -> (parsed: Result<Nodes, ParserError>)
    ensures
        match parsed {
            Ok(nodes) => grammar::program(input@) == Ok::<Seq<NodeView>, ParserError>(nodes@),
            Err(error) => grammar::program(input@) == Err::<Seq<NodeView>, ParserError>(error),
        },
{
    let chars = characters(input);
    let mut nodes: Vec<Node> = Vec::new();
    let mut at = skip_white(&chars, 0);
    if at >= chars.len() {
        assert(Nodes(nodes)@ =~= Seq::<NodeView>::empty());
        return Ok(Nodes(nodes));
    }
    loop
        invariant
            input@ == chars@,
            at < chars.len(),
            grammar::program(chars@) == match grammar::items(chars@, at as int) {
                Ok(rest) => Ok::<Seq<NodeView>, ParserError>(Nodes(nodes)@ + rest),
                Err(error) => Err(error),
            },
        decreases chars.len() - at,
    {
        let (node, end) = match item_at(input, &chars, at) {
            Ok(found) => found,
            Err(error) => {
                return Err(error);
            },
        };
        let ghost before = Nodes(nodes)@;
        nodes.push(node);
        assert(Nodes(nodes)@ =~= before + seq![node@]);
        let next = skip_blank(&chars, end);
        if skip_white(&chars, next) >= chars.len() {
            return Ok(Nodes(nodes));
        }
        assert forall|rest: Seq<NodeView>| before + (seq![node@] + rest) == before + seq![node@]
            + rest by {
            assert(before + (seq![node@] + rest) =~= before + seq![node@] + rest);
        }
        at = next;
    }
}

/// Parses a comment line at the start of `input`. Gives the comment and the
/// number of characters that the line takes, its end included.
pub fn comment(input: &str) -> (found: Result<(Node, usize), ParserError>)
    ensures
        node_agrees(found, grammar::comment(input@, 0)),
{
    let chars = characters(input);
    comment_at(input, &chars, 0)
}

/// Parses a word line at the start of `input`. Gives the word and the
/// number of characters that the line takes, its end included.
pub fn word(input: &str) -> (found: Result<(Node, usize), ParserError>)
    ensures
        node_agrees(found, grammar::word(input@, 0)),
{
    let chars = characters(input);
    word_at(&chars, 0)
}

/// Parses a mnemonic at the start of `input`. Gives the instruction and the
/// length of the mnemonic.
pub fn inst(input: &str) -> (found: Result<(Inst, usize), ParserError>)
    ensures
        agrees(found, grammar::inst(input@, 0)),
{
    let chars = characters(input);
    inst_at(&chars, 0)
}

/// Parses the one mnemonic `name` at the start of `input`, written as
/// `name` is, in lower case or in capitals. Gives `inst` and the length of
/// the mnemonic.
pub fn inst_item(inst: Inst, name: &str, input: &str) -> (found: Result<(Inst, usize), ParserError>)
    ensures
        agrees(found, grammar::inst_item(input@, 0, inst, name@)),
{
    let chars = characters(input);
    inst_item_at(inst, name, &chars, 0)
}

/// Parses an address numeral at the start of `input`. Gives the address and
/// the length of the numeral.
pub fn addr(input: &str) -> (found: Result<(Addr, usize), ParserError>)
    ensures
        agrees(found, grammar::addr(input@, 0)),
{
    let chars = characters(input);
    addr_at(&chars, 0)
}

/// Parses a control numeral at the start of `input`. Gives the control and
/// the length of the numeral.
pub fn ctrl(input: &str) -> (found: Result<(Ctrl, usize), ParserError>)
    ensures
        agrees(found, grammar::ctrl(input@, 0)),
{
    let chars = characters(input);
    ctrl_at(&chars, 0)
}

} // verus!
