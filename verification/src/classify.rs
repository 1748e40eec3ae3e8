//! The line classifier: what kind of line a line of input is.
use crate::text::{
    contains, ends_with, find, find_from, has_infix, lemma_find_from, lemma_find_in_rest,
    line_views, repeated, slice_of, starts_with, trim, trimmed,
};
use vstd::prelude::*;

verus! {

/// One line of input, told apart by its markup.
#[derive(Debug, PartialEq, Eq)]
pub enum ClassifiedLine {
    /// A line that begins with three backticks; what follows them, trimmed, is
    /// the language (empty where none is given).
    FenceMarker { language: Vec<char> },
    /// A line that begins with `#`: the number of leading `#`, and the rest,
    /// trimmed.
    Header { level: usize, text: Vec<char> },
    /// A line that begins with `> `: what follows the prefix.
    Blockquote { text: Vec<char> },
    /// A line between `| ` and ` |`: its cells, and whether it is a separator.
    TableRow { cells: Vec<Vec<char>>, is_separator: bool },
    /// An empty line.
    Blank,
    /// Any other line.
    Plain { text: Vec<char> },
}

/// What a `ClassifiedLine` stands for.
pub enum LineClass {
    FenceMarker { language: Seq<char> },
    Header { level: nat, text: Seq<char> },
    Blockquote { text: Seq<char> },
    TableRow { cells: Seq<Seq<char>>, is_separator: bool },
    Blank,
    Plain { text: Seq<char> },
}

impl View for ClassifiedLine {
    type V = LineClass;

    open spec fn view(&self) -> LineClass {
        match self {
            ClassifiedLine::FenceMarker { language } => LineClass::FenceMarker {
                language: language@,
            },
            ClassifiedLine::Header { level, text } => LineClass::Header {
                level: *level as nat,
                text: text@,
            },
            ClassifiedLine::Blockquote { text } => LineClass::Blockquote { text: text@ },
            ClassifiedLine::TableRow { cells, is_separator } => LineClass::TableRow {
                cells: line_views(cells@),
                is_separator: *is_separator,
            },
            ClassifiedLine::Blank => LineClass::Blank,
            ClassifiedLine::Plain { text } => LineClass::Plain { text: text@ },
        }
    }
}

/// The marker of a code fence.
pub open spec fn fence() -> Seq<char> {
    seq!['`', '`', '`']
}

/// The prefix of a quoted line.
pub open spec fn quote_prefix() -> Seq<char> {
    seq!['>', ' ']
}

/// How a table row begins.
pub open spec fn row_prefix() -> Seq<char> {
    seq!['|', ' ']
}

/// How a table row ends.
pub open spec fn row_suffix() -> Seq<char> {
    seq![' ', '|']
}

/// What makes a table row a separator.
pub open spec fn separator_mark() -> Seq<char> {
    seq!['-', '-', '-']
}

/// The number of `#` that `s` begins with.
pub open spec fn leading_hashes(s: Seq<char>) -> nat
    decreases s.len(),
{
    if s.len() > 0 && s[0] == '#' {
        1 + leading_hashes(s.skip(1))
    } else {
        0
    }
}

/// The cells of a table row: the pieces between the bars, each trimmed, the
/// empty ones left out. So a cell left empty cannot be told from a cell that
/// is not there.
pub open spec fn row_cells(s: Seq<char>) -> Seq<Seq<char>>
    decreases s.len(),
    via row_cells_ends
{
    match find_from(s, seq!['|'], 0) {
        None => cell_of(s),
        Some(bar) => cell_of(s.take(bar)) + row_cells(s.skip(bar + 1)),
    }
}

#[via_fn]
proof fn row_cells_ends(s: Seq<char>) {
    lemma_find_from(s, seq!['|'], 0);
}

/// The cell that a piece between two bars makes, if any.
pub open spec fn cell_of(piece: Seq<char>) -> Seq<Seq<char>> {
    if trimmed(piece).len() > 0 {
        seq![trimmed(piece)]
    } else {
        Seq::empty()
    }
}

/// Whether a line is a table row.
pub open spec fn is_table_row(line: Seq<char>) -> bool {
    row_prefix().is_prefix_of(line) && row_suffix().is_suffix_of(line)
}

/// The class of a line. The rules are tried in this order; the first that
/// fits decides.
pub open spec fn classify(line: Seq<char>) -> LineClass {
    if fence().is_prefix_of(line) {
        LineClass::FenceMarker { language: trimmed(line.skip(3)) }
    } else if line.len() > 0 && line[0] == '#' {
        LineClass::Header {
            level: leading_hashes(line),
            text: trimmed(line.skip(leading_hashes(line) as int)),
        }
    } else if quote_prefix().is_prefix_of(line) {
        LineClass::Blockquote { text: line.skip(2) }
    } else if is_table_row(line) {
        LineClass::TableRow {
            cells: row_cells(line),
            is_separator: has_infix(line, separator_mark()),
        }
    } else if line.len() == 0 {
        LineClass::Blank
    } else {
        LineClass::Plain { text: line }
    }
}

/// A header's level is the number of `#` before its text: `n` of them, then
/// text that does not begin with `#`, make a header of level `n` whose text is
/// that text, trimmed.
pub proof fn lemma_header(n: nat, rest: Seq<char>)
    requires
        n >= 1,
        rest.len() == 0 || rest[0] != '#',
    ensures
        classify(repeated('#', n) + rest) == (LineClass::Header { level: n, text: trimmed(rest) }),
{
    let hashes = repeated('#', n);
    let line = hashes + rest;
    lemma_hashes(n, rest);
    assert(line.skip(n as int) == rest);
    assert(line[0] == '#');
    if fence().is_prefix_of(line) {
        assert(line.subrange(0, 3)[0] == fence()[0]);
    }
}

proof fn lemma_hashes(n: nat, rest: Seq<char>)
    requires
        rest.len() == 0 || rest[0] != '#',
    ensures
        leading_hashes(repeated('#', n) + rest) == n,
    decreases n,
{
    let line = repeated('#', n) + rest;
    if n == 0 {
        assert(line == rest);
    } else {
        assert(line[0] == '#');
        assert(line.skip(1) == repeated('#', (n - 1) as nat) + rest);
        lemma_hashes((n - 1) as nat, rest);
    }
}

fn count_hashes(line: &[char]) -> (n: usize)
    ensures
        n == leading_hashes(line@),
        n <= line.len(),
{
    let mut n: usize = 0;
    assert(line@.skip(0) == line@);
    while n < line.len() && line[n] == '#'
        invariant
            n <= line.len(),
            leading_hashes(line@) == n + leading_hashes(line@.skip(n as int)),
        decreases line.len() - n,
    {
        assert(line@.skip(n as int).skip(1) == line@.skip(n + 1));
        n += 1;
    }
    n
}

/// The cells of a table row.
pub fn split_cells(line: &[char]) -> (cells: Vec<Vec<char>>)
    ensures
        line_views(cells@) == row_cells(line@),
{
    let bar: Vec<char> = vec!['|'];
    let mut cells: Vec<Vec<char>> = Vec::new();
    let mut pos: usize = 0;
    assert(line@.skip(0) == line@);
    assert(line_views(cells@) + row_cells(line@) == row_cells(line@));
    loop
        invariant_except_break
            row_cells(line@) == line_views(cells@) + row_cells(
                line@.skip(pos as int),
            ),
        invariant
            pos <= line.len(),
            bar@ == seq!['|'],
        ensures
            line_views(cells@) == row_cells(line@),
        decreases line.len() - pos,
    {
        let ghost left = line@.skip(pos as int);
        let ghost before = line_views(cells@);
        proof {
            lemma_find_in_rest(line@, bar@, pos as int, pos as int);
            lemma_find_from(line@, bar@, pos as int);
        }
        let end = match find(line, bar.as_slice(), pos) {
            Some(i) => i,
            None => line.len(),
        };
        let found = end < line.len();
        let cell = trim(slice_of(line, pos, end).as_slice());
        assert(left.take(end - pos) == line@.subrange(pos as int, end as int));
        if cell.len() > 0 {
            cells.push(cell);
            assert(line_views(cells@) == before + cell_of(
                left.take(end - pos),
            ));
        }
        if !found {
            assert(left.take(end - pos) == left);
            break ;
        }
        assert(left.skip(end - pos + 1) == line@.skip(end + 1));
        pos = end + 1;
    }
    cells
}

/// Classifies one line. The line holds no line terminator. Whether a table is
/// open has no bearing on the class: the renderer needs it for what follows.
#[allow(unused_variables)]
pub fn classify_line(line: &[char], in_table: bool) -> (class: ClassifiedLine)
    ensures
        class@ == classify(line@),
{
    let fence: Vec<char> = vec!['`', '`', '`'];
    let quote: Vec<char> = vec!['>', ' '];
    let row_start: Vec<char> = vec!['|', ' '];
    let row_end: Vec<char> = vec![' ', '|'];
    let dashes: Vec<char> = vec!['-', '-', '-'];
    if starts_with(line, fence.as_slice()) {
        ClassifiedLine::FenceMarker { language: trim(slice_of(line, 3, line.len()).as_slice()) }
    } else if line.len() > 0 && line[0] == '#' {
        let level = count_hashes(line);
        ClassifiedLine::Header { level, text: trim(slice_of(line, level, line.len()).as_slice()) }
    } else if starts_with(line, quote.as_slice()) {
        ClassifiedLine::Blockquote { text: slice_of(line, 2, line.len()) }
    } else if starts_with(line, row_start.as_slice()) && ends_with(line, row_end.as_slice()) {
        ClassifiedLine::TableRow {
            cells: split_cells(line),
            is_separator: contains(line, dashes.as_slice()),
        }
    } else if line.len() == 0 {
        ClassifiedLine::Blank
    } else {
        let text = slice_of(line, 0, line.len());
        assert(text@ == line@);
        ClassifiedLine::Plain { text }
    }
}

} // verus!
