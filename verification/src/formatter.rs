//! The renderer: one pass over a text, line by line, from markup to a string
//! for the terminal.
use crate::classify::{classify_line, ClassifiedLine};
use crate::highlight::{code_block, is_code_block, Highlighter};
use crate::render::{
    format_blockquote, format_header, format_regular_line, is_line_output, is_rendering_of,
    is_trace, next_state, state_after, RenderState,
};
use crate::text::{append, chars_of, line_views, lines_of, split_lines, starts_with, string_of};
use vstd::prelude::*;

verus! {

/// Whether `out` is a rendering of `text` by a formatter.
pub open spec fn is_rendering(formatter: TextFormatter, text: Seq<char>, out: Seq<char>) -> bool {
    is_rendering_of(formatter.highlighter(), lines_of(text), out)
}

/// Renders markup for the terminal. It holds the grammars and the theme that
/// code blocks are highlighted with; they are loaded once and never change.
pub struct TextFormatter {
    highlighter: Highlighter,
}

impl TextFormatter {
    /// What it highlights code blocks with.
    pub closed spec fn highlighter(&self) -> Highlighter {
        self.highlighter
    }

    /// A formatter whose highlighter holds the grammars and the themes that
    /// come with syntect, the grammar for plain text and the theme in use
    /// among them.
    pub fn new() -> (formatter: TextFormatter)
        ensures
            formatter.highlighter().is_equipped(),
    {
        TextFormatter { highlighter: Highlighter::new() }
    }

    /// Renders a code block: the highlighted code between two line
    /// terminators. A language that the grammars do not know is no error: the
    /// code is then highlighted as plain text.
    pub fn highlight_code(&self, code: &[char], language: &[char]) -> (out: Vec<char>)
        ensures
            out@ == code_block(self.highlighter().highlighted(code@, language@)),
            is_code_block(code@, out@),
    {
        let mut out: Vec<char> = vec!['\n'];
        let tinted = self.highlighter.highlight(code, language);
        append(&mut out, tinted.as_slice());
        out.push('\n');
        assert(out@.subrange(1, out@.len() - 1) == tinted@);
        out
    }

    /// Takes the next line of the text: moves the state on and returns what
    /// the line adds to the output.
    pub fn process_line(&self, line: &[char], state: &mut RenderState) -> (piece: Vec<char>)
        ensures
            final(state)@ == next_state(old(state)@, line@),
            is_line_output(self.highlighter(), old(state)@, line@, piece@),
    {
        if state.in_code_block() {
            let fence: Vec<char> = vec!['`', '`', '`'];
            if line.len() == 3 && starts_with(line, fence.as_slice()) {
                assert(line@ == fence@);
                let (language, buffer) = state.close_block();
                self.highlight_code(buffer.as_slice(), language.as_slice())
            } else {
                state.gather(line);
                Vec::new()
            }
        } else {
            match classify_line(line, state.in_table()) {
                ClassifiedLine::FenceMarker { language } => {
                    let out = state.end_table();
                    state.open_block(language);
                    out
                },
                ClassifiedLine::Header { level: _, text } => {
                    let mut out = state.end_table();
                    let ghost lead = out@;
                    let body = format_header(text.as_slice());
                    append(&mut out, body.as_slice());
                    assert(out@.skip(lead.len() as int) == body@);
                    out
                },
                ClassifiedLine::Blockquote { text } => {
                    let mut out = state.end_table();
                    let ghost lead = out@;
                    let body = format_blockquote(text.as_slice());
                    append(&mut out, body.as_slice());
                    assert(out@.skip(lead.len() as int) == body@);
                    out
                },
                ClassifiedLine::TableRow { cells, is_separator } => state.table_row(
                    &cells,
                    is_separator,
                ),
                ClassifiedLine::Blank => state.empty_line(),
                ClassifiedLine::Plain { text } => {
                    let mut out = state.end_table();
                    let ghost lead = out@;
                    let body = format_regular_line(text.as_slice());
                    append(&mut out, body.as_slice());
                    assert(out@.skip(lead.len() as int) == body@);
                    out
                },
            }
        }
    }

    /// Renders a text. Every text has a rendering: nothing in the markup is
    /// an error.
    pub fn format_text(&self, text: &str) -> (out: String)
        ensures
            is_rendering(*self, text@, out@),
    {
        let chars = chars_of(text);
        let lines = split_lines(chars.as_slice());
        let mut state = RenderState::new();
        let mut out: Vec<char> = Vec::new();
        let ghost all = line_views(lines@);
        let ghost mut pieces: Seq<Seq<char>> = Seq::empty();
        let mut i: usize = 0;
        while i < lines.len()
            invariant
                i <= lines.len(),
                all == line_views(lines@),
                pieces.len() == i,
                out@ == pieces.flatten(),
                state@ == state_after(all, i as nat),
                forall|k: int|
                    0 <= k < i ==> is_line_output(
                        self.highlighter(),
                        state_after(all, k as nat),
                        all[k],
                        #[trigger] pieces[k],
                    ),
            decreases lines.len() - i,
        {
            let piece = self.process_line(lines[i].as_slice(), &mut state);
            append(&mut out, piece.as_slice());
            proof {
                pieces.lemma_flatten_push(piece@);
                pieces = pieces.push(piece@);
            }
            i += 1;
        }
        if !state.in_code_block() {
            let end = state.end_table();
            append(&mut out, end.as_slice());
        }
        assert(is_trace(self.highlighter(), all, pieces));
        string_of(out.as_slice())
    }
}

} // verus!
