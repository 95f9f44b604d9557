//! The listing of a program: its words in numbered tables, its comments in
//! blocks between them.
use crate::data::{lemma_words_of_step, words_of, Addr, Ctrl, Inst, Node, NodeView, Nodes, Word};
use crate::text::{characters, fixed_digits, skip_white, white_end};
use vstd::prelude::*;
use vstd::string::{StrSliceExecFns, StringExecFns};

verus! {

/// The base in which a listing shows numbers.
#[derive(Debug, Clone, Copy, PartialEq, Eq, Structural)]
pub enum NumberFormat {
    Bin,
    Oct,
}

impl Default for NumberFormat {
    fn default() -> (numbers: NumberFormat)
        ensures
            numbers == NumberFormat::Bin,
    {
        NumberFormat::Bin
    }
}

/// One row of a table of words: the word's number among the words of the
/// program, and the text of its three fields.
#[derive(Debug, Clone, PartialEq)]
pub struct Row {
    pub index: usize,
    pub inst: String,
    pub addr: String,
    pub ctrl: String,
}

/// What a row stands for.
pub struct RowView {
    pub index: nat,
    pub inst: Seq<char>,
    pub addr: Seq<char>,
    pub ctrl: Seq<char>,
}

impl View for Row {
    type V = RowView;

    open spec fn view(&self) -> RowView {
        RowView { index: self.index as nat, inst: self.inst@, addr: self.addr@, ctrl: self.ctrl@ }
    }
}

/// One part of a listing: words that follow one another, or comment lines
/// that do. A block of comments knows the least indentation of its lines
/// that hold more than white space, if there is such a line.
#[derive(Debug, Clone, PartialEq)]
pub enum Table {
    Words(Vec<Row>),
    Comments { indent: Option<usize>, lines: Vec<String> },
}

/// What a table stands for.
pub enum TableView {
    Words(Seq<RowView>),
    Comments { indent: Option<nat>, lines: Seq<Seq<char>> },
}

/// The rows that a vector of rows stands for.
pub open spec fn rows_view(rows: Seq<Row>) -> Seq<RowView> {
    Seq::new(rows.len(), |i: int| rows[i]@)
}

/// The lines that a vector of strings stands for.
pub open spec fn lines_view(lines: Seq<String>) -> Seq<Seq<char>> {
    Seq::new(lines.len(), |i: int| lines[i]@)
}

/// The indentation that a block of comments stands for.
pub open spec fn indent_view(indent: Option<usize>) -> Option<nat> {
    match indent {
        Some(width) => Some(width as nat),
        None => None,
    }
}

impl View for Table {
    type V = TableView;

    open spec fn view(&self) -> TableView {
        match self {
            Table::Words(rows) => TableView::Words(rows_view(rows@)),
            Table::Comments { indent, lines } => TableView::Comments {
                indent: indent_view(*indent),
                lines: lines_view(lines@),
            },
        }
    }
}

/// The tables that a vector of tables stands for.
pub open spec fn tables_view(tables: Seq<Table>) -> Seq<TableView> {
    Seq::new(tables.len(), |i: int| tables[i]@)
}

/// `text`, with blanks in front of it where it is shorter than `width`.
pub open spec fn right_aligned(text: Seq<char>, width: nat) -> Seq<char> {
    if text.len() >= width {
        text
    } else {
        Seq::new((width - text.len()) as nat, |i: int| ' ') + text
    }
}

/// The two characters that mark the base of a number.
pub open spec fn base_mark(numbers: NumberFormat) -> Seq<char> {
    match numbers {
        NumberFormat::Bin => seq!['0', 'b'],
        NumberFormat::Oct => seq!['0', 'o'],
    }
}

/// The cell of an instruction: its code and, to the right, its mnemonic.
pub open spec fn inst_cell(numbers: NumberFormat, inst: Inst) -> Seq<char> {
    match numbers {
        NumberFormat::Bin => base_mark(numbers) + fixed_digits(inst.code() as nat, 2, 4)
            + right_aligned(inst.0.mnemonic(), 6),
        NumberFormat::Oct => base_mark(numbers) + fixed_digits(inst.code() as nat, 8, 2)
            + right_aligned(inst.0.mnemonic(), 7),
    }
}

/// The cell of an address: its value and, to the right, the name of its
/// mode.
pub open spec fn addr_cell(numbers: NumberFormat, addr: Addr) -> Seq<char> {
    match numbers {
        NumberFormat::Bin => base_mark(numbers) + fixed_digits(addr.value() as nat, 2, 6)
            + right_aligned(addr.mode().label(), 20),
        NumberFormat::Oct => base_mark(numbers) + fixed_digits(addr.value() as nat, 8, 2)
            + right_aligned(addr.mode().label(), 20),
    }
}

/// The cell of a control: its code and, to the right, its name.
pub open spec fn ctrl_cell(numbers: NumberFormat, ctrl: Ctrl) -> Seq<char> {
    match numbers {
        NumberFormat::Bin => base_mark(numbers) + fixed_digits(ctrl.code() as nat, 2, 2)
            + right_aligned(ctrl.0.label(), 20),
        NumberFormat::Oct => base_mark(numbers) + fixed_digits(ctrl.code() as nat, 8, 1)
            + right_aligned(ctrl.0.label(), 20),
    }
}

/// The row of the word with the number `index`.
pub open spec fn row_of(numbers: NumberFormat, index: nat, word: Word) -> RowView {
    RowView {
        index,
        inst: inst_cell(numbers, word.0),
        addr: addr_cell(numbers, word.1),
        ctrl: ctrl_cell(numbers, word.2),
    }
}

/// The indentation of a comment line: the number of white-space characters
/// at its start, if anything follows them.
pub open spec fn line_indent(text: Seq<char>) -> Option<nat> {
    if white_end(text, 0) < text.len() {
        Some(white_end(text, 0) as nat)
    } else {
        None
    }
}

/// The lesser of two indentations, where a line of white space has none.
pub open spec fn least_indent(a: Option<nat>, b: Option<nat>) -> Option<nat> {
    match (a, b) {
        (Some(x), Some(y)) => Some(
            if x <= y {
                x
            } else {
                y
            },
        ),
        (Some(x), None) => Some(x),
        (None, _) => b,
    }
}

/// The listing of a program. It starts with a table of words, which is
/// empty where the program starts with a comment. Each node then goes into
/// the last table, where that is of the node's kind, or starts a new one.
/// Words are numbered from 0 on throughout.
pub open spec fn listed(numbers: NumberFormat, nodes: Seq<NodeView>) -> Seq<TableView>
    decreases nodes.len(),
{
    if nodes.len() == 0 {
        seq![TableView::Words(Seq::empty())]
    } else {
        let before = listed(numbers, nodes.drop_last());
        let index = words_of(nodes.drop_last()).len();
        match (nodes.last(), before.last()) {
            (NodeView::Word(word), TableView::Words(rows)) => before.drop_last().push(
                TableView::Words(rows.push(row_of(numbers, index, word))),
            ),
            (NodeView::Word(word), TableView::Comments { .. }) => before.push(
                TableView::Words(seq![row_of(numbers, index, word)]),
            ),
            (NodeView::Comment(text), TableView::Comments { indent, lines }) => before.drop_last().push(
                TableView::Comments {
                    indent: least_indent(indent, line_indent(text)),
                    lines: lines.push(text),
                },
            ),
            (NodeView::Comment(text), TableView::Words(_)) => before.push(
                TableView::Comments { indent: line_indent(text), lines: seq![text] },
            ),
        }
    }
}

/// A listing is never empty.
pub proof fn lemma_listed_len(numbers: NumberFormat, nodes: Seq<NodeView>)
    ensures
        listed(numbers, nodes).len() >= 1,
    decreases nodes.len(),
{
    if nodes.len() > 0 {
        lemma_listed_len(numbers, nodes.drop_last());
    }
}

/// The mark of the base, to start a cell with.
fn base_text(numbers: NumberFormat) -> (text: String)
    ensures
        text@ == base_mark(numbers),
{
    proof {
        reveal_strlit("0b");
        reveal_strlit("0o");
    }
    let text = match numbers {
        NumberFormat::Bin => String::from_str("0b"),
        NumberFormat::Oct => String::from_str("0o"),
    };
    text
}

/// Appends `name` to `text`, with blanks in front of it up to `width`.
fn append_right_aligned(text: &mut String, name: &str, width: usize)
    ensures
        final(text)@ == old(text)@ + right_aligned(name@, width as nat),
{
    let ghost start = text@;
    let length = name.unicode_len();
    let mut blanks: usize = 0;
    while length < width && blanks < width - length
        invariant
            length == name@.len(),
            length < width ==> blanks <= width - length,
            length >= width ==> blanks == 0,
            text@ == start + Seq::new(blanks as nat, |i: int| ' '),
        decreases width - blanks,
    {
        proof {
            reveal_strlit(" ");
        }
        text.append(" ");
        blanks += 1;
    }
    text.append(name);
}

/// Writes the cell of an instruction.
fn inst_text(numbers: NumberFormat, inst: Inst) -> (text: String)
    ensures
        text@ == inst_cell(numbers, inst),
{
    let mut text = base_text(numbers);
    match numbers {
        NumberFormat::Bin => {
            text.append(inst.binary().as_str());
            append_right_aligned(&mut text, inst.name(), 6);
        },
        NumberFormat::Oct => {
            text.append(inst.octal().as_str());
            append_right_aligned(&mut text, inst.name(), 7);
        },
    }
    text
}

/// Writes the cell of an address.
fn addr_text(numbers: NumberFormat, addr: Addr) -> (text: String)
    ensures
        text@ == addr_cell(numbers, addr),
{
    let mut text = base_text(numbers);
    match numbers {
        NumberFormat::Bin => {
            text.append(addr.binary().as_str());
        },
        NumberFormat::Oct => {
            text.append(addr.octal().as_str());
        },
    }
    append_right_aligned(&mut text, addr.name(), 20);
    text
}

/// Writes the cell of a control.
fn ctrl_text(numbers: NumberFormat, ctrl: Ctrl) -> (text: String)
    ensures
        text@ == ctrl_cell(numbers, ctrl),
{
    let mut text = base_text(numbers);
    match numbers {
        NumberFormat::Bin => {
            text.append(ctrl.binary().as_str());
        },
        NumberFormat::Oct => {
            text.append(ctrl.octal().as_str());
        },
    }
    append_right_aligned(&mut text, ctrl.name(), 20);
    text
}

/// The indentation of one comment line.
pub fn indent_of(text: &str) -> (indent: Option<usize>)
    ensures
        indent_view(indent) == line_indent(text@),
{
    let chars = characters(text);
    let start = skip_white(&chars, 0);
    if start < chars.len() {
        Some(start)
    } else {
        None
    }
}

/// The lesser of two indentations.
fn lesser(a: Option<usize>, b: Option<usize>) -> (least: Option<usize>)
    ensures
        indent_view(least) == least_indent(indent_view(a), indent_view(b)),
{
    match (a, b) {
        (Some(x), Some(y)) => Some(
            if x <= y {
                x
            } else {
                y
            },
        ),
        (Some(x), None) => Some(x),
        (None, _) => b,
    }
}

/// The table that the listing is at work on.
spec fn open_table(
    is_comment: bool,
    indent: Option<usize>,
    rows: Seq<Row>,
    lines: Seq<String>,
) -> TableView {
    if is_comment {
        TableView::Comments { indent: indent_view(indent), lines: lines_view(lines) }
    } else {
        TableView::Words(rows_view(rows))
    }
}

/// Lists a program: groups its nodes into tables and writes the cells of
/// the words in the base that `numbers` names.
pub fn listing(numbers: NumberFormat, nodes: &Nodes) -> (tables: Vec<Table>)
    ensures
        tables_view(tables@) == listed(numbers, nodes@),
{
    let mut tables: Vec<Table> = Vec::new();
    let mut rows: Vec<Row> = Vec::new();
    let mut lines: Vec<String> = Vec::new();
    let mut words: usize = 0;
    let mut is_comment = false;
    let mut indent: Option<usize> = None;
    let mut done: usize = 0;

    assert(rows_view(rows@) =~= Seq::<RowView>::empty());
    while done < nodes.0.len()
        invariant
            done <= nodes.0.len(),
            words <= done,
            words == words_of(nodes@.take(done as int)).len(),
            tables_view(tables@).push(open_table(is_comment, indent, rows@, lines@)) == listed(
                numbers,
                nodes@.take(done as int),
            ),
        decreases nodes.0.len() - done,
    {
        proof {
            lemma_words_of_step(nodes@, done as int);
            assert(nodes@.take(done + 1).drop_last() =~= nodes@.take(done as int));
        }
        match &nodes.0[done] {
            Node::Word(inst, addr, ctrl) => {
                if is_comment {
                    tables.push(Table::Comments { indent, lines });
                    lines = Vec::new();
                    rows = Vec::new();
                    is_comment = false;
                    indent = None;
                    assert(rows_view(rows@) =~= Seq::<RowView>::empty());
                }
                let ghost earlier = rows_view(rows@);
                let row = Row {
                    index: words,
                    inst: inst_text(numbers, *inst),
                    addr: addr_text(numbers, *addr),
                    ctrl: ctrl_text(numbers, *ctrl),
                };
                rows.push(row);
                assert(rows_view(rows@) =~= earlier.push(row@));
                words += 1;
            },
            Node::Comment(text) => {
                let line_indent = indent_of(text.as_str());
                if !is_comment {
                    tables.push(Table::Words(rows));
                    rows = Vec::new();
                    lines = Vec::new();
                    is_comment = true;
                    indent = line_indent;
                    assert(lines_view(lines@) =~= Seq::<Seq<char>>::empty());
                } else {
                    indent = lesser(indent, line_indent);
                }
                let ghost earlier = lines_view(lines@);
                let line = text.clone();
                lines.push(line);
                assert(lines_view(lines@) =~= earlier.push(text@));
            },
        }
        done += 1;
    }
    assert(nodes@.take(done as int) =~= nodes@);

    if is_comment {
        tables.push(Table::Comments { indent, lines });
    } else {
        tables.push(Table::Words(rows));
    }
    tables
}

/// The number of digits of `number` in decimal.
pub open spec fn decimal_len(number: nat) -> nat
    decreases number,
{
    if number < 10 {
        1
    } else {
        1 + decimal_len(number / 10)
    }
}

/// The width of the column that numbers the words of a program of `words`
/// words: the digits of `words`, and two for the padding.
pub fn index_width(words: usize) -> (width: usize)
    ensures
        width == 2 + decimal_len(words as nat),
{
    let mut width: usize = 3;
    let mut rest = words;
    while rest >= 10
        invariant
            width + decimal_len(rest as nat) == 3 + decimal_len(words as nat),
            width + rest <= 3 + words,
        decreases rest,
    {
        rest = rest / 10;
        width += 1;
    }
    width
}

/// A rendered line of a block of comments without the indentation that the
/// block's lines share: `indent` characters less, where the line is longer
/// than that.
pub open spec fn without_indent(line: Seq<char>, indent: Option<nat>) -> Seq<char> {
    match indent {
        Some(width) if line.len() > width => line.skip(width as int),
        _ => line,
    }
}

/// Takes the shared indentation off a rendered line.
pub fn unindented<'a>(line: &'a str, indent: Option<usize>) -> (rest: &'a str)
    ensures
        rest@ == without_indent(line@, indent_view(indent)),
{
    match indent {
        Some(width) => {
            let length = line.unicode_len();
            if length > width {
                line.substring_char(width, length)
            } else {
                line
            }
        },
        None => line,
    }
}

} // verus!
