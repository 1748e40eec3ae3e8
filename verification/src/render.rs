//! The renderer's state and what each line adds to the output.
//!
//! The state moves from line to line by rules that no styling decision can
//! bend: `next_state` is a function. What a line adds to the output is a
//! relation, `is_line_output`, because the styling of a header, a quote or a
//! span has two possible outcomes: with colours, and without.
use crate::classify::{classify, fence, LineClass};
use crate::highlight::{code_block, is_code_block, Highlighter};
use crate::paint::{is_painted, paint, Tone};
use crate::spans::{format_spans, is_span_formatted};
use crate::table::{
    bottom_border, empty_line_output, format_table_row, handle_empty_line, table_row_output,
};
use crate::text::{append, line_views};
use vstd::prelude::*;

verus! {

/// What a `RenderState` stands for.
pub struct State {
    /// Whether a code block is open.
    pub in_code_block: bool,
    /// The language of the open code block.
    pub code_language: Seq<char>,
    /// The lines of the open code block so far, each with its terminator.
    pub code_buffer: Seq<char>,
    /// Whether a table is open.
    pub in_table: bool,
}

/// The state of one pass over a text. It belongs to that pass alone.
pub struct RenderState {
    in_code_block: bool,
    code_language: Vec<char>,
    code_buffer: Vec<char>,
    in_table: bool,
}

/// The state before the first line.
pub open spec fn initial_state() -> State {
    State {
        in_code_block: false,
        code_language: Seq::empty(),
        code_buffer: Seq::empty(),
        in_table: false,
    }
}

/// A code block and a table are never open together, and a closed code block
/// holds nothing.
pub open spec fn is_consistent(s: State) -> bool {
    &&& s.in_code_block ==> !s.in_table
    &&& !s.in_code_block ==> s.code_language.len() == 0 && s.code_buffer.len() == 0
}

/// The state after a line.
///
/// Inside a code block a line of exactly three backticks closes the block;
/// every other line goes to the buffer with a line terminator, whatever it
/// looks like. Outside, a fence marker opens a block, a table row opens a
/// table or goes on with it, and every other line closes an open table.
pub open spec fn next_state(s: State, line: Seq<char>) -> State {
    if s.in_code_block {
        if line == fence() {
            State {
                in_code_block: false,
                code_language: Seq::empty(),
                code_buffer: Seq::empty(),
                in_table: s.in_table,
            }
        } else {
            State { code_buffer: s.code_buffer + line + seq!['\n'], ..s }
        }
    } else {
        match classify(line) {
            LineClass::FenceMarker { language } => State {
                in_code_block: true,
                code_language: language,
                code_buffer: Seq::empty(),
                in_table: false,
            },
            LineClass::TableRow { .. } => State { in_table: true, ..s },
            _ => State { in_table: false, ..s },
        }
    }
}

/// What closes a table before a line that is no table row, and at the end of
/// the text: the bottom border where a table is open, nothing where none is.
pub open spec fn table_end(in_table: bool) -> Seq<char> {
    if in_table {
        bottom_border()
    } else {
        Seq::empty()
    }
}

/// Whether `out` is a rendered header: the styled text and a line terminator.
pub open spec fn is_header_output(text: Seq<char>, out: Seq<char>) -> bool {
    &&& out.len() >= 1
    &&& out.last() == '\n'
    &&& is_painted(Tone::Header, text, out.drop_last())
}

/// What a rendered quote begins with.
pub open spec fn quote_bar() -> Seq<char> {
    seq!['│', ' ']
}

/// Whether `out` is a rendered quote: a bar, the styled text and a line
/// terminator.
pub open spec fn is_quote_output(text: Seq<char>, out: Seq<char>) -> bool {
    &&& out.len() >= 3
    &&& quote_bar().is_prefix_of(out)
    &&& out.last() == '\n'
    &&& is_painted(Tone::Quote, text, out.subrange(2, out.len() - 1))
}

/// Whether `out` is a rendered line of plain text: the line with its spans
/// formatted, and a line terminator.
pub open spec fn is_text_output(line: Seq<char>, out: Seq<char>) -> bool {
    &&& out.len() >= 1
    &&& out.last() == '\n'
    &&& is_span_formatted(line, out.drop_last())
}

/// Whether `piece` is what a line may add to the output in state `s`.
///
/// A header, a quote and a line of plain text close an open table before
/// they are rendered, and so does the marker that opens a code block, which
/// adds nothing else. Inside a code block only the closing fence adds
/// anything: the block as the highlighter `h` renders it, which is the code
/// with colour sequences woven in.
pub open spec fn is_line_output(
    h: Highlighter,
    s: State,
    line: Seq<char>,
    piece: Seq<char>,
) -> bool {
    if s.in_code_block {
        if line == fence() {
            &&& piece == code_block(h.highlighted(s.code_buffer, s.code_language))
            &&& is_code_block(s.code_buffer, piece)
        } else {
            piece == Seq::<char>::empty()
        }
    } else {
        let lead = table_end(s.in_table);
        let body = piece.skip(lead.len() as int);
        match classify(line) {
            LineClass::FenceMarker { .. } => piece == lead,
            LineClass::Header { text, .. } => lead.is_prefix_of(piece) && is_header_output(
                text,
                body,
            ),
            LineClass::Blockquote { text } => lead.is_prefix_of(piece) && is_quote_output(
                text,
                body,
            ),
            LineClass::TableRow { cells, is_separator } => piece == table_row_output(
                cells,
                is_separator,
                s.in_table,
            ),
            LineClass::Blank => piece == empty_line_output(s.in_table),
            LineClass::Plain { text } => lead.is_prefix_of(piece) && is_text_output(text, body),
        }
    }
}

/// The state after the first `n` lines.
pub open spec fn state_after(lines: Seq<Seq<char>>, n: nat) -> State
    decreases n,
{
    if n == 0 {
        initial_state()
    } else {
        next_state(state_after(lines, (n - 1) as nat), lines[n - 1])
    }
}

/// Whether `pieces` holds, line by line, what the lines may add to the
/// output, each in the state that the lines before it lead to.
pub open spec fn is_trace(
    h: Highlighter,
    lines: Seq<Seq<char>>,
    pieces: Seq<Seq<char>>,
) -> bool {
    &&& pieces.len() == lines.len()
    &&& forall|k: int|
        0 <= k < lines.len() ==> is_line_output(
            h,
            state_after(lines, k as nat),
            lines[k],
            #[trigger] pieces[k],
        )
}

/// Whether `out` is a rendering of the lines: what the lines add, one after
/// the other, and the bottom border of a table that is still open at the end.
///
/// The end of the text closes a table as an empty line would. It does not
/// close a code block: a block that is still open then adds nothing, and
/// what it has gathered is dropped without a word. One may well question
/// that; it is the rule all the same.
pub open spec fn is_rendering_of(h: Highlighter, lines: Seq<Seq<char>>, out: Seq<char>) -> bool {
    exists|pieces: Seq<Seq<char>>| #[trigger]
        is_trace(h, lines, pieces) && out == pieces.flatten() + table_end(
            state_after(lines, lines.len()).in_table,
        )
}

/// No line leads from a consistent state to an inconsistent one.
pub proof fn lemma_next_state_consistent(s: State, line: Seq<char>)
    requires
        is_consistent(s),
    ensures
        is_consistent(next_state(s, line)),
{
}

/// Every state that a text leads to is consistent.
pub proof fn lemma_state_after_consistent(lines: Seq<Seq<char>>, n: nat)
    ensures
        is_consistent(state_after(lines, n)),
    decreases n,
{
    if n > 0 {
        lemma_state_after_consistent(lines, (n - 1) as nat);
        lemma_next_state_consistent(state_after(lines, (n - 1) as nat), lines[n - 1]);
    }
}

impl View for RenderState {
    type V = State;

    closed spec fn view(&self) -> State {
        State {
            in_code_block: self.in_code_block,
            code_language: self.code_language@,
            code_buffer: self.code_buffer@,
            in_table: self.in_table,
        }
    }
}

impl RenderState {
    #[verifier::type_invariant]
    closed spec fn consistent(self) -> bool {
        is_consistent(self@)
    }

    /// The state before the first line.
    pub fn new() -> (state: RenderState)
        ensures
            state@ == initial_state(),
    {
        RenderState {
            in_code_block: false,
            code_language: Vec::new(),
            code_buffer: Vec::new(),
            in_table: false,
        }
    }

    /// Whether a code block is open. While one is, no table is.
    pub fn in_code_block(&self) -> (open: bool)
        ensures
            open == self@.in_code_block,
            is_consistent(self@),
    {
        proof {
            use_type_invariant(self);
        }
        self.in_code_block
    }

    /// Whether a table is open. While one is, no code block is.
    pub fn in_table(&self) -> (open: bool)
        ensures
            open == self@.in_table,
            is_consistent(self@),
    {
        proof {
            use_type_invariant(self);
        }
        self.in_table
    }

    /// The language of the open code block.
    pub fn code_language(&self) -> (language: &Vec<char>)
        ensures
            language@ == self@.code_language,
    {
        &self.code_language
    }

    /// What the open code block has gathered.
    pub fn code_buffer(&self) -> (buffer: &Vec<char>)
        ensures
            buffer@ == self@.code_buffer,
    {
        &self.code_buffer
    }

    /// Opens a code block, which closes an open table.
    pub(crate) fn open_block(&mut self, language: Vec<char>)
        requires
            !old(self)@.in_code_block,
        ensures
            final(self)@ == (State {
                in_code_block: true,
                code_language: language@,
                code_buffer: Seq::empty(),
                in_table: false,
            }),
    {
        proof {
            use_type_invariant(&*self);
        }
        self.in_table = false;
        self.in_code_block = true;
        self.code_language = language;
        assert(self.code_buffer@ == Seq::<char>::empty());
    }

    /// Adds a line and its terminator to the open code block.
    pub(crate) fn gather(&mut self, line: &[char])
        requires
            old(self)@.in_code_block,
        ensures
            final(self)@ == (State {
                code_buffer: old(self)@.code_buffer + line@ + seq!['\n'],
                ..old(self)@
            }),
    {
        proof {
            use_type_invariant(&*self);
        }
        let mut buffer: Vec<char> = Vec::new();
        std::mem::swap(&mut self.code_buffer, &mut buffer);
        append(&mut buffer, line);
        buffer.push('\n');
        assert(buffer@ == old(self)@.code_buffer + line@ + seq!['\n']);
        self.code_buffer = buffer;
    }

    /// Closes the code block and hands out its language and what it gathered.
    pub(crate) fn close_block(&mut self) -> (block: (Vec<char>, Vec<char>))
        requires
            old(self)@.in_code_block,
        ensures
            block.0@ == old(self)@.code_language,
            block.1@ == old(self)@.code_buffer,
            final(self)@ == (State {
                in_code_block: false,
                code_language: Seq::empty(),
                code_buffer: Seq::empty(),
                in_table: old(self)@.in_table,
            }),
    {
        proof {
            use_type_invariant(&*self);
        }
        let mut language: Vec<char> = Vec::new();
        let mut buffer: Vec<char> = Vec::new();
        std::mem::swap(&mut self.code_language, &mut language);
        std::mem::swap(&mut self.code_buffer, &mut buffer);
        self.in_code_block = false;
        (language, buffer)
    }

    /// Closes an open table and says what that adds to the output.
    pub(crate) fn end_table(&mut self) -> (out: Vec<char>)
        requires
            !old(self)@.in_code_block,
        ensures
            out@ == table_end(old(self)@.in_table),
            final(self)@ == (State { in_table: false, ..old(self)@ }),
    {
        proof {
            use_type_invariant(&*self);
        }
        if self.in_table {
            self.empty_line()
        } else {
            Vec::new()
        }
    }

    /// Lets a table row open a table, or go on with it, and says what the row
    /// adds to the output.
    pub(crate) fn table_row(&mut self, cells: &Vec<Vec<char>>, is_separator: bool) -> (out: Vec<
        char,
    >)
        requires
            !old(self)@.in_code_block,
        ensures
            out@ == table_row_output(
                line_views(cells@),
                is_separator,
                old(self)@.in_table,
            ),
            final(self)@ == (State { in_table: true, ..old(self)@ }),
    {
        proof {
            use_type_invariant(&*self);
        }
        let mut in_table = self.in_table;
        let out = format_table_row(cells, is_separator, &mut in_table);
        self.in_table = in_table;
        out
    }

    /// Lets an empty line close an open table, and says what the line adds to
    /// the output.
    pub(crate) fn empty_line(&mut self) -> (out: Vec<char>)
        requires
            !old(self)@.in_code_block,
        ensures
            out@ == empty_line_output(old(self)@.in_table),
            final(self)@ == (State { in_table: false, ..old(self)@ }),
    {
        proof {
            use_type_invariant(&*self);
        }
        let mut in_table = self.in_table;
        let out = handle_empty_line(&mut in_table);
        self.in_table = in_table;
        out
    }
}

/// Renders the text of a header: styled, then a line terminator.
pub fn format_header(text: &[char]) -> (out: Vec<char>)
    ensures
        is_header_output(text@, out@),
{
    let mut out = paint(Tone::Header, text);
    let ghost painted = out@;
    out.push('\n');
    assert(out@.drop_last() == painted);
    out
}

/// Renders the text of a quote: a bar, the styled text, a line terminator.
pub fn format_blockquote(text: &[char]) -> (out: Vec<char>)
    ensures
        is_quote_output(text@, out@),
{
    let painted = paint(Tone::Quote, text);
    let mut out: Vec<char> = vec!['│', ' '];
    append(&mut out, painted.as_slice());
    out.push('\n');
    assert(out@.subrange(2, out@.len() - 1) == painted@);
    out
}

/// Renders a line of plain text: its spans formatted, then a line terminator.
pub fn format_regular_line(line: &[char]) -> (out: Vec<char>)
    ensures
        is_text_output(line@, out@),
{
    let mut out = format_spans(line);
    let ghost formatted = out@;
    out.push('\n');
    assert(out@.drop_last() == formatted);
    out
}

} // verus!
