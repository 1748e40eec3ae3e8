//! What holds of every rendering.
use crate::classify::{classify, fence, lemma_header, quote_prefix, LineClass};
use crate::formatter::{is_rendering, TextFormatter};
use crate::highlight::{code_block, grammar_for, is_code_block, Highlighter};
use crate::table::{bottom_border, data_row, middle_border, top_border};
use crate::render::{
    initial_state, is_header_output, is_line_output, is_quote_output, is_rendering_of, is_trace,
    next_state, state_after, table_end,
};
use crate::spans::{
    delimiter, is_scanned, is_span_formatted, lemma_scan_without_delimiter, SpanKind,
};
use crate::text::{joined, lemma_absent_char, lemma_joined_push, lines_of, repeated, trimmed};
use vstd::prelude::*;

verus! {

/// A text of one line is rendered as what that line adds to the output, and
/// the bottom border if the line is a table row.
pub proof fn lemma_one_line(formatter: TextFormatter, line: Seq<char>, out: Seq<char>)
    requires
        line.len() > 0,
        !line.contains('\n'),
        is_rendering(formatter, line, out),
    ensures
        exists|piece: Seq<char>| #[trigger]
            is_line_output(formatter.highlighter(), initial_state(), line, piece) && out == piece
                + table_end(next_state(initial_state(), line).in_table),
{
    let h = formatter.highlighter();
    lemma_absent_char(line, seq!['\n'], 0);
    let lines = seq![line];
    assert(lines_of(line) == lines);
    let pieces = choose|pieces: Seq<Seq<char>>| #[trigger]
        is_trace(h, lines, pieces) && out == pieces.flatten() + table_end(
            state_after(lines, lines.len()).in_table,
        );
    assert(state_after(lines, 0) == initial_state());
    assert(state_after(lines, 1) == next_state(state_after(lines, 0), lines[0]));
    assert(is_line_output(h, initial_state(), lines[0], pieces[0]));
    assert(pieces.flatten() == pieces[0]) by {
        pieces.lemma_flatten_one_element();
    }
}

/// Whether a text is one line of plain text without markup: no line feed, not
/// empty, nothing at its start or end that makes it a fence, a header, a
/// quote or a table row, and no `*` and no backtick in it.
pub open spec fn is_unmarked_line(line: Seq<char>) -> bool {
    &&& !line.contains('\n')
    &&& classify(line) is Plain
    &&& !line.contains('*')
    &&& !line.contains('`')
}

/// A line of plain text without markup is rendered as itself and a line
/// terminator, whether colours are on or off.
pub proof fn lemma_unmarked_line_is_kept(
    formatter: TextFormatter,
    line: Seq<char>,
    out: Seq<char>,
)
    requires
        is_unmarked_line(line),
        is_rendering(formatter, line, out),
    ensures
        out == line.push('\n'),
{
    lemma_one_line(formatter, line, out);
    let h = formatter.highlighter();
    let piece = choose|piece: Seq<char>| #[trigger]
        is_line_output(h, initial_state(), line, piece) && out == piece + table_end(
            next_state(initial_state(), line).in_table,
        );
    assert(piece.skip(0) == piece);
    lemma_unmarked_spans(line, piece.drop_last());
    assert(piece == line.push('\n'));
}

/// A line of one or more `#` and then text is rendered as a header, whatever
/// the number of `#` and with or without a space behind them: the text,
/// trimmed and styled, and a line terminator.
pub proof fn lemma_header_line(
    formatter: TextFormatter,
    level: nat,
    rest: Seq<char>,
    out: Seq<char>,
)
    requires
        level >= 1,
        rest.len() == 0 || rest[0] != '#',
        !rest.contains('\n'),
        is_rendering(formatter, repeated('#', level) + rest, out),
    ensures
        is_header_output(trimmed(rest), out),
{
    let line = repeated('#', level) + rest;
    lemma_header(level, rest);
    assert(!line.contains('\n')) by {
        if line.contains('\n') {
            let i = choose|i: int| 0 <= i < line.len() && line[i] == '\n';
            if i >= level {
                assert(rest[i - level] == '\n');
            }
        }
    }
    lemma_one_line(formatter, line, out);
    let h = formatter.highlighter();
    let piece = choose|piece: Seq<char>| #[trigger]
        is_line_output(h, initial_state(), line, piece) && out == piece + table_end(
            next_state(initial_state(), line).in_table,
        );
    assert(piece.skip(0) == piece);
    assert(out == piece);
}

/// A line that begins with `> ` is rendered as a quote: a bar and a space,
/// what follows the prefix, styled, and a line terminator.
pub proof fn lemma_quote_line(formatter: TextFormatter, text: Seq<char>, out: Seq<char>)
    requires
        !text.contains('\n'),
        is_rendering(formatter, quote_prefix() + text, out),
    ensures
        is_quote_output(text, out),
{
    let line = quote_prefix() + text;
    assert(line[0] == '>');
    assert(quote_prefix().is_prefix_of(line));
    assert(line.skip(2) == text);
    if fence().is_prefix_of(line) {
        assert(line.subrange(0, 3)[0] == fence()[0]);
    }
    assert(classify(line) == LineClass::Blockquote { text });
    assert(!line.contains('\n')) by {
        if line.contains('\n') {
            let i = choose|i: int| 0 <= i < line.len() && line[i] == '\n';
            if i >= 2 {
                assert(text[i - 2] == '\n');
            }
        }
    }
    lemma_one_line(formatter, line, out);
    let h = formatter.highlighter();
    let piece = choose|piece: Seq<char>| #[trigger]
        is_line_output(h, initial_state(), line, piece) && out == piece + table_end(
            next_state(initial_state(), line).in_table,
        );
    assert(piece.skip(0) == piece);
    assert(out == piece);
}

/// Text without `*` and without a backtick comes out of the span formatter
/// unchanged.
pub proof fn lemma_unmarked_spans(line: Seq<char>, out: Seq<char>)
    requires
        !line.contains('*'),
        !line.contains('`'),
        is_span_formatted(line, out),
    ensures
        out == line,
{
    let (a, b) = choose|a: Seq<char>, b: Seq<char>|
        {
            &&& #[trigger] is_scanned(SpanKind::Bold, line, a)
            &&& #[trigger] is_scanned(SpanKind::Italic, a, b)
            &&& is_scanned(SpanKind::InlineCode, b, out)
        };
    lemma_absent_char(line, delimiter(SpanKind::Bold), 0);
    lemma_scan_without_delimiter(SpanKind::Bold, line, a);
    lemma_absent_char(line, delimiter(SpanKind::Italic), 0);
    lemma_scan_without_delimiter(SpanKind::Italic, a, b);
    lemma_absent_char(line, delimiter(SpanKind::InlineCode), 0);
    lemma_scan_without_delimiter(SpanKind::InlineCode, b, out);
}

/// The state after some lines depends on those lines only.
pub proof fn lemma_state_of_prefix(lines: Seq<Seq<char>>, m: int, n: nat)
    requires
        n <= m <= lines.len(),
    ensures
        state_after(lines.take(m), n) == state_after(lines, n),
    decreases n,
{
    if n > 0 {
        lemma_state_of_prefix(lines, m, (n - 1) as nat);
    }
}

/// Behind a fence marker that opens a code block the block stays open as
/// long as no line of exactly three backticks comes.
pub proof fn lemma_block_stays_open(lines: Seq<Seq<char>>, at: int, n: int)
    requires
        0 <= at < n <= lines.len(),
        !state_after(lines, at as nat).in_code_block,
        classify(lines[at]) is FenceMarker,
        forall|k: int| at < k < lines.len() ==> lines[k] != fence(),
    ensures
        state_after(lines, n as nat).in_code_block,
        !state_after(lines, n as nat).in_table,
    decreases n,
{
    if n > at + 1 {
        lemma_block_stays_open(lines, at, n - 1);
    }
}

/// Pieces that are all empty from some place on add nothing.
proof fn lemma_empty_pieces(pieces: Seq<Seq<char>>, m: int)
    requires
        0 <= m <= pieces.len(),
        forall|k: int| m <= k < pieces.len() ==> pieces[k].len() == 0,
    ensures
        pieces.flatten() == pieces.take(m).flatten(),
    decreases pieces.len() - m,
{
    if m == pieces.len() {
        assert(pieces.take(m) == pieces);
    } else {
        lemma_empty_pieces(pieces, m + 1);
        assert(pieces.take(m + 1) == pieces.take(m).push(pieces[m]));
        pieces.take(m).lemma_flatten_push(pieces[m]);
        assert(pieces.take(m).flatten() + pieces[m] == pieces.take(m).flatten());
    }
}

/// A code block that is never closed leaves no trace: from the marker that
/// opens it to the end of the text nothing reaches the output, so the text
/// is rendered as if it ended with that marker.
pub proof fn lemma_unclosed_block_is_dropped(
    h: Highlighter,
    lines: Seq<Seq<char>>,
    at: int,
    out: Seq<char>,
)
    requires
        0 <= at < lines.len(),
        !state_after(lines, at as nat).in_code_block,
        classify(lines[at]) is FenceMarker,
        forall|k: int| at < k < lines.len() ==> lines[k] != fence(),
    ensures
        is_rendering_of(h, lines, out) <==> is_rendering_of(h, lines.take(at + 1), out),
{
    let head = lines.take(at + 1);
    lemma_block_stays_open(lines, at, lines.len() as int);
    lemma_block_stays_open(lines, at, at + 1);
    lemma_state_of_prefix(lines, at + 1, (at + 1) as nat);
    assert(table_end(state_after(lines, lines.len()).in_table) == table_end(
        state_after(head, head.len()).in_table,
    ));
    if is_rendering_of(h, lines, out) {
        let pieces = choose|pieces: Seq<Seq<char>>| #[trigger]
            is_trace(h, lines, pieces) && out == pieces.flatten() + table_end(
                state_after(lines, lines.len()).in_table,
            );
        let kept = pieces.take(at + 1);
        assert forall|k: int| 0 <= k < head.len() implies is_line_output(h, 
            state_after(head, k as nat),
            head[k],
            #[trigger] kept[k],
        ) by {
            lemma_state_of_prefix(lines, at + 1, k as nat);
            assert(kept[k] == pieces[k]);
        }
        assert forall|k: int| at + 1 <= k < pieces.len() implies pieces[k].len() == 0 by {
            lemma_block_stays_open(lines, at, k);
            assert(is_line_output(h, state_after(lines, k as nat), lines[k], pieces[k]));
        }
        lemma_empty_pieces(pieces, at + 1);
        assert(is_trace(h, head, kept));
    }
    if is_rendering_of(h, head, out) {
        let kept = choose|kept: Seq<Seq<char>>| #[trigger]
            is_trace(h, head, kept) && out == kept.flatten() + table_end(
                state_after(head, head.len()).in_table,
            );
        let pieces = Seq::new(
            lines.len(),
            |k: int|
                if k <= at {
                    kept[k]
                } else {
                    Seq::<char>::empty()
                },
        );
        assert(pieces.take(at + 1) == kept);
        assert forall|k: int| 0 <= k < lines.len() implies is_line_output(h, 
            state_after(lines, k as nat),
            lines[k],
            #[trigger] pieces[k],
        ) by {
            if k <= at {
                lemma_state_of_prefix(lines, at + 1, k as nat);
                assert(is_line_output(h, state_after(head, k as nat), head[k], kept[k]));
            } else {
                lemma_block_stays_open(lines, at, k);
            }
        }
        lemma_empty_pieces(pieces, at + 1);
        assert(is_trace(h, lines, pieces));
    }
}

/// What a table row adds below the top border: the middle border for a
/// separator, its cells for any other row.
pub open spec fn row_output(row: Seq<char>) -> Seq<char> {
    match classify(row) {
        LineClass::TableRow { cells, is_separator } => if is_separator {
            middle_border()
        } else {
            data_row(cells)
        },
        _ => Seq::empty(),
    }
}

/// What the rows of a table add between its borders.
pub open spec fn table_body(rows: Seq<Seq<char>>) -> Seq<char>
    decreases rows.len(),
{
    if rows.len() == 0 {
        Seq::empty()
    } else {
        table_body(rows.drop_last()) + row_output(rows.last())
    }
}

/// While table rows come, the table that the first of them opened is open.
proof fn lemma_table_stays_open(rows: Seq<Seq<char>>, n: nat)
    requires
        n <= rows.len(),
        forall|k: int| 0 <= k < rows.len() ==> classify(rows[k]) is TableRow,
    ensures
        !state_after(rows, n).in_code_block,
        state_after(rows, n).in_table == (n > 0),
    decreases n,
{
    if n > 0 {
        lemma_table_stays_open(rows, (n - 1) as nat);
    }
}

/// A text of table rows is rendered as one table: the top border, the rows in
/// their order, a middle border for each separator among them, and the
/// bottom border, whether an empty line follows the rows or the text ends
/// with them.
pub proof fn lemma_table(h: Highlighter, rows: Seq<Seq<char>>, out: Seq<char>)
    requires
        rows.len() > 0,
        forall|k: int| 0 <= k < rows.len() ==> classify(rows[k]) is TableRow,
    ensures
        is_rendering_of(h, rows, out) <==> out == top_border() + table_body(rows) + bottom_border(),
        is_rendering_of(h, rows.push(Seq::empty()), out) <==> out == top_border() + table_body(rows)
            + bottom_border(),
{
    let closed = rows.push(Seq::empty());
    let whole = top_border() + table_body(rows) + bottom_border();
    let pieces = Seq::new(
        rows.len(),
        |k: int|
            (if k == 0 {
                top_border()
            } else {
                Seq::empty()
            }) + row_output(rows[k]),
    );
    assert forall|k: int| 0 <= k < rows.len() implies is_line_output(h, 
        state_after(rows, k as nat),
        rows[k],
        #[trigger] pieces[k],
    ) by {
        lemma_table_stays_open(rows, k as nat);
    }
    assert(is_trace(h, rows, pieces));
    lemma_table_pieces(rows, pieces, rows.len());
    assert(pieces.take(rows.len() as int) == pieces);
    assert(rows.take(rows.len() as int) == rows);
    lemma_table_stays_open(rows, rows.len());
    assert(pieces.flatten() + table_end(state_after(rows, rows.len()).in_table) == whole);
    if is_rendering_of(h, rows, out) {
        let found = choose|found: Seq<Seq<char>>| #[trigger]
            is_trace(h, rows, found) && out == found.flatten() + table_end(
                state_after(rows, rows.len()).in_table,
            );
        assert forall|k: int| 0 <= k < rows.len() implies found[k] == pieces[k] by {
            lemma_table_stays_open(rows, k as nat);
            assert(is_line_output(h, state_after(rows, k as nat), rows[k], found[k]));
        }
        assert(found == pieces);
    }
    let closed_pieces = pieces.push(bottom_border());
    assert(closed.take(rows.len() as int) == rows);
    lemma_state_of_prefix(closed, rows.len() as int, rows.len());
    assert(state_after(closed, closed.len()) == next_state(
        state_after(closed, rows.len()),
        closed[rows.len() as int],
    ));
    assert(classify(Seq::<char>::empty()) is Blank);
    assert forall|k: int| 0 <= k < closed.len() implies is_line_output(h, 
        state_after(closed, k as nat),
        closed[k],
        #[trigger] closed_pieces[k],
    ) by {
        lemma_state_of_prefix(closed, rows.len() as int, k as nat);
        if k < rows.len() {
            assert(closed_pieces[k] == pieces[k]);
            assert(is_line_output(h, state_after(rows, k as nat), rows[k], pieces[k]));
        }
    }
    assert(is_trace(h, closed, closed_pieces));
    pieces.lemma_flatten_push(bottom_border());
    assert(closed_pieces.flatten() + table_end(state_after(closed, closed.len()).in_table)
        == whole);
    if is_rendering_of(h, closed, out) {
        let found = choose|found: Seq<Seq<char>>| #[trigger]
            is_trace(h, closed, found) && out == found.flatten() + table_end(
                state_after(closed, closed.len()).in_table,
            );
        assert forall|k: int| 0 <= k < closed.len() implies found[k] == closed_pieces[k] by {
            lemma_state_of_prefix(closed, rows.len() as int, k as nat);
            if k < rows.len() {
                lemma_table_stays_open(rows, k as nat);
            }
            assert(is_line_output(h, state_after(closed, k as nat), closed[k], found[k]));
        }
        assert(found == closed_pieces);
    }
}

/// The pieces of the first rows of a table, put together.
proof fn lemma_table_pieces(rows: Seq<Seq<char>>, pieces: Seq<Seq<char>>, n: nat)
    requires
        n <= rows.len() == pieces.len(),
        forall|k: int|
            0 <= k < rows.len() ==> #[trigger] pieces[k] == (if k == 0 {
                top_border()
            } else {
                Seq::empty()
            }) + row_output(rows[k]),
    ensures
        pieces.take(n as int).flatten() == (if n == 0 {
            Seq::empty()
        } else {
            top_border()
        }) + table_body(rows.take(n as int)),
    decreases n,
{
    if n == 0 {
        assert(pieces.take(0) == Seq::<Seq<char>>::empty());
        assert(rows.take(0) == Seq::<Seq<char>>::empty());
    } else {
        lemma_table_pieces(rows, pieces, (n - 1) as nat);
        assert(pieces.take(n as int) == pieces.take(n - 1).push(pieces[n - 1]));
        pieces.take(n - 1).lemma_flatten_push(pieces[n - 1]);
        assert(rows.take(n as int).drop_last() == rows.take(n - 1));
        assert(rows.take(n as int).last() == rows[n - 1]);
        if n == 1 {
            assert(table_body(rows.take(0)) == Seq::<char>::empty());
        }
    }
}

/// Inside a code block every line goes to the buffer.
proof fn lemma_block_gathers(lines: Seq<Seq<char>>, body: Seq<Seq<char>>, n: nat)
    requires
        lines.len() >= 1 + body.len(),
        classify(lines[0]) is FenceMarker,
        forall|k: int| 0 <= k < body.len() ==> lines[1 + k] == body[k] && body[k] != fence(),
        n <= body.len(),
    ensures
        state_after(lines, (1 + n) as nat).in_code_block,
        !state_after(lines, (1 + n) as nat).in_table,
        state_after(lines, (1 + n) as nat).code_language == trimmed(lines[0].skip(3)),
        state_after(lines, (1 + n) as nat).code_buffer == joined(body.take(n as int)),
    decreases n,
{
    if n == 0 {
        assert(state_after(lines, 1) == next_state(state_after(lines, 0), lines[0]));
        assert(body.take(0) == Seq::<Seq<char>>::empty());
    } else {
        lemma_block_gathers(lines, body, (n - 1) as nat);
        assert(body.take(n as int) == body.take(n - 1).push(body[n - 1]));
        lemma_joined_push(body.take(n - 1), body[n - 1]);
    }
}

/// Pieces that are all empty add nothing.
proof fn lemma_no_pieces(pieces: Seq<Seq<char>>)
    requires
        forall|k: int| 0 <= k < pieces.len() ==> pieces[k].len() == 0,
    ensures
        pieces.flatten() == Seq::<char>::empty(),
{
    lemma_empty_pieces(pieces, 0);
    assert(pieces.take(0) == Seq::<Seq<char>>::empty());
}

/// A text that is one code block, from the marker that opens it to the
/// fence that closes it, is rendered as the highlighted block: a line
/// terminator, the lines of the block, each with its terminator and with
/// colour sequences woven in, and a line terminator.
pub proof fn lemma_code_block(
    h: Highlighter,
    opening: Seq<char>,
    body: Seq<Seq<char>>,
    out: Seq<char>,
)
    requires
        classify(opening) is FenceMarker,
        forall|k: int| 0 <= k < body.len() ==> body[k] != fence(),
        is_rendering_of(h, seq![opening] + body + seq![fence()], out),
    ensures
        out == code_block(h.highlighted(joined(body), trimmed(opening.skip(3)))),
        is_code_block(joined(body), out),
{
    let lines = seq![opening] + body + seq![fence()];
    let n = body.len() as int;
    let pieces = choose|pieces: Seq<Seq<char>>| #[trigger]
        is_trace(h, lines, pieces) && out == pieces.flatten() + table_end(
            state_after(lines, lines.len()).in_table,
        );
    assert(state_after(lines, 0) == initial_state());
    lemma_block_gathers(lines, body, n as nat);
    assert(body.take(n) == body);
    assert(state_after(lines, lines.len()) == next_state(
        state_after(lines, (1 + n) as nat),
        lines[1 + n],
    ));
    let before = pieces.take(1 + n);
    assert forall|k: int| 0 <= k < before.len() implies before[k].len() == 0 by {
        assert(is_line_output(h, state_after(lines, k as nat), lines[k], pieces[k]));
        if k > 0 {
            lemma_block_gathers(lines, body, (k - 1) as nat);
        }
    }
    lemma_no_pieces(before);
    assert(pieces == before.push(pieces[1 + n]));
    before.lemma_flatten_push(pieces[1 + n]);
    assert(is_line_output(h, state_after(lines, (1 + n) as nat), lines[1 + n], pieces[1 + n]));
    assert(out == pieces[1 + n]);
}

/// Code in a language that the grammars do not know is highlighted as code
/// in any other language that they do not know: all of it as plain text.
pub proof fn lemma_unknown_languages_agree(
    h: Highlighter,
    code: Seq<char>,
    language: Seq<char>,
    other: Seq<char>,
)
    requires
        grammar_for(h.syntaxes(), language) is None,
        grammar_for(h.syntaxes(), other) is None,
    ensures
        h.highlighted(code, language) == h.highlighted(code, other),
{
}

} // verus!
