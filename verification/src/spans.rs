//! The span formatter: bold, italic and inline code inside one line of text.
//!
//! Three scans run one after the other, each over what the one before it
//! gave back. A scan pairs the first delimiter left in the line with the next
//! one after it, styles what stands between them, and goes on behind the
//! closing delimiter. A delimiter without a partner stays as it is. The scans
//! know nothing of each other: emphasis inside emphasis is not understood.
use crate::paint::{
    is_laced, is_painted, lemma_laced_concat, lemma_painted_is_laced, paint, sgr_on, Tone,
};
use crate::text::{
    append, find, find_from, lemma_find_from, lemma_find_in_rest, lemma_found_at,
    lemma_found_in_prefix, occurs_at, slice_of,
};
use vstd::prelude::*;

verus! {

/// The inline markup that a scan looks for.
#[derive(Clone, Copy, Debug, PartialEq, Eq, Structural)]
pub enum SpanKind {
    /// `**bold**`
    Bold,
    /// `*italic*`
    Italic,
    /// `` `code` ``
    InlineCode,
}

/// The delimiter that opens and closes a span.
pub open spec fn delimiter(kind: SpanKind) -> Seq<char> {
    match kind {
        SpanKind::Bold => seq!['*', '*'],
        SpanKind::Italic => seq!['*'],
        SpanKind::InlineCode => seq!['`'],
    }
}

/// The tone that a span is styled in.
pub open spec fn span_tone(kind: SpanKind) -> Tone {
    match kind {
        SpanKind::Bold => Tone::Strong,
        SpanKind::Italic => Tone::Emphasis,
        SpanKind::InlineCode => Tone::Code,
    }
}

/// The first pair of delimiters in `s`: where the first `d` stands, and where
/// the next one after it stands.
pub open spec fn first_span(s: Seq<char>, d: Seq<char>) -> Option<(int, int)> {
    match find_from(s, d, 0) {
        None => None,
        Some(open) => match find_from(s, d, open + d.len()) {
            None => None,
            Some(close) => Some((open, close)),
        },
    }
}

/// The two delimiters of a pair lie inside `s`, and do not overlap.
pub proof fn lemma_first_span(s: Seq<char>, d: Seq<char>)
    ensures
        match first_span(s, d) {
            Some((open, close)) => 0 <= open && open + d.len() <= close && close + d.len()
                <= s.len() && occurs_at(s, d, open) && occurs_at(s, d, close),
            None => true,
        },
{
    lemma_find_from(s, d, 0);
    if let Some(open) = find_from(s, d, 0) {
        lemma_find_from(s, d, open + d.len());
    }
}

/// Whether `out` is what one scan may make of `s`: each paired span styled
/// (or, where colours are off, only freed of its delimiters), the text around
/// the spans kept.
#[verifier::opaque]
pub open spec fn is_scanned(kind: SpanKind, s: Seq<char>, out: Seq<char>) -> bool
    decreases s.len(),
    via is_scanned_ends
{
    let d = delimiter(kind);
    match first_span(s, d) {
        None => out == s,
        Some((open, close)) => {
            exists|p: Seq<char>|
                {
                    &&& #[trigger] is_painted(
                        span_tone(kind),
                        s.subrange(open + d.len(), close),
                        p,
                    )
                    &&& (s.take(open) + p).is_prefix_of(out)
                    &&& is_scanned(kind, s.skip(close + d.len()), out.skip(open + p.len()))
                }
        },
    }
}

#[via_fn]
proof fn is_scanned_ends(kind: SpanKind, s: Seq<char>, out: Seq<char>) {
    lemma_first_span(s, delimiter(kind));
}

/// Whether `out` is what the three scans may make of `line`.
pub open spec fn is_span_formatted(line: Seq<char>, out: Seq<char>) -> bool {
    exists|a: Seq<char>, b: Seq<char>|
        {
            &&& #[trigger] is_scanned(SpanKind::Bold, line, a)
            &&& #[trigger] is_scanned(SpanKind::Italic, a, b)
            &&& is_scanned(SpanKind::InlineCode, b, out)
        }
}

/// A line without any delimiter of a kind comes out of that scan unchanged.
pub proof fn lemma_scan_without_delimiter(kind: SpanKind, s: Seq<char>, out: Seq<char>)
    requires
        find_from(s, delimiter(kind), 0) is None,
    ensures
        is_scanned(kind, s, out) <==> out == s,
{
    reveal(is_scanned);
}

/// Text without a pair of delimiters is its own scan.
pub proof fn lemma_scan_unpaired(kind: SpanKind, s: Seq<char>)
    requires
        first_span(s, delimiter(kind)) is None,
    ensures
        is_scanned(kind, s, s),
{
    reveal(is_scanned);
}

/// A scan of text with a pair is made of the text before the pair, the styled
/// span, and a scan of what follows the pair.
pub proof fn lemma_scan_paired(
    kind: SpanKind,
    s: Seq<char>,
    open: int,
    close: int,
    p: Seq<char>,
    rest: Seq<char>,
)
    requires
        first_span(s, delimiter(kind)) == Some((open, close)),
        is_painted(span_tone(kind), s.subrange(open + delimiter(kind).len(), close), p),
        is_scanned(kind, s.skip(close + delimiter(kind).len()), rest),
    ensures
        is_scanned(kind, s, s.take(open) + p + rest),
{
    reveal(is_scanned);
    let out = s.take(open) + p + rest;
    lemma_first_span(s, delimiter(kind));
    assert(out.skip(open + p.len()) == rest);
}

/// `s` without the delimiters of its pairs.
pub open spec fn without_pairs(kind: SpanKind, s: Seq<char>) -> Seq<char>
    decreases s.len(),
    via without_pairs_ends
{
    let d = delimiter(kind);
    match first_span(s, d) {
        None => s,
        Some((open, close)) => s.take(open) + s.subrange(open + d.len(), close) + without_pairs(
            kind,
            s.skip(close + d.len()),
        ),
    }
}

#[via_fn]
proof fn without_pairs_ends(kind: SpanKind, s: Seq<char>) {
    lemma_first_span(s, delimiter(kind));
}

/// In a scan only delimiters go and only sequences come: whatever a scan
/// gives is the text without the delimiters of its pairs, with the sequence
/// of the spans' tone and resets put in.
pub proof fn lemma_scan_only_laces(kind: SpanKind, s: Seq<char>, out: Seq<char>)
    requires
        is_scanned(kind, s, out),
    ensures
        is_laced(sgr_on(span_tone(kind)), without_pairs(kind, s), out),
    decreases s.len(),
{
    reveal(is_scanned);
    let d = delimiter(kind);
    let on = sgr_on(span_tone(kind));
    lemma_first_span(s, d);
    match first_span(s, d) {
        None => {
            lemma_painted_is_laced(span_tone(kind), s, s);
        },
        Some((open, close)) => {
            let inner = s.subrange(open + d.len(), close);
            let rest = s.skip(close + d.len());
            let p = choose|p: Seq<char>|
                {
                    &&& #[trigger] is_painted(span_tone(kind), inner, p)
                    &&& (s.take(open) + p).is_prefix_of(out)
                    &&& is_scanned(kind, rest, out.skip(open + p.len()))
                };
            let tail = out.skip(open + p.len());
            lemma_scan_only_laces(kind, rest, tail);
            lemma_painted_is_laced(span_tone(kind), s.take(open), s.take(open));
            lemma_painted_is_laced(span_tone(kind), inner, p);
            lemma_laced_concat(on, s.take(open), s.take(open), inner, p);
            lemma_laced_concat(
                on,
                s.take(open) + inner,
                s.take(open) + p,
                without_pairs(kind, rest),
                tail,
            );
            assert(out == s.take(open) + p + tail);
        },
    }
}

/// Whether `s` holds no delimiter, not even one that begins in `s` and ends
/// in a delimiter behind it.
pub open spec fn is_free_of(s: Seq<char>, d: Seq<char>) -> bool {
    find_from(s + d, d, 0) == Some(s.len() as int)
}

/// One span in a line: where the text before the span and the text inside it
/// hold no delimiter of the span's kind, and the text behind it holds no
/// pair of them, a scan styles what stands inside the span and keeps the rest
/// as it is.
pub proof fn lemma_one_span(
    kind: SpanKind,
    before: Seq<char>,
    inner: Seq<char>,
    after: Seq<char>,
    out: Seq<char>,
)
    requires
        is_free_of(before, delimiter(kind)),
        is_free_of(inner, delimiter(kind)),
        first_span(after, delimiter(kind)) is None,
        is_scanned(kind, before + delimiter(kind) + inner + delimiter(kind) + after, out),
    ensures
        exists|p: Seq<char>| #[trigger]
            is_painted(span_tone(kind), inner, p) && out == before + p + after,
{
    reveal(is_scanned);
    let d = delimiter(kind);
    let s = before + d + inner + d + after;
    let open = before.len() as int;
    let close = open + d.len() + inner.len();
    assert(s == (before + d) + (inner + d + after));
    lemma_found_in_prefix(before + d, inner + d + after, d, 0);
    let tail = s.skip(open + d.len());
    assert(tail == (inner + d) + after);
    lemma_found_in_prefix(inner + d, after, d, 0);
    lemma_find_in_rest(s, d, open + d.len(), open + d.len());
    lemma_find_from(s, d, open + d.len());
    assert(first_span(s, d) == Some((open, close)));
    assert(s.subrange(open + d.len(), close) == inner);
    assert(s.skip(close + d.len()) == after);
    assert(s.take(open) == before);
    let p = choose|p: Seq<char>|
        {
            &&& #[trigger] is_painted(span_tone(kind), s.subrange(open + d.len(), close), p)
            &&& (s.take(open) + p).is_prefix_of(out)
            &&& is_scanned(kind, s.skip(close + d.len()), out.skip(open + p.len()))
        };
    assert(out.skip(open + p.len()) == after);
    assert(out == before + p + after);
}

/// Text in which the first character of a delimiter does not occur holds no
/// delimiter.
pub proof fn lemma_free_of(s: Seq<char>, d: Seq<char>)
    requires
        d.len() > 0,
        !s.contains(d[0]),
    ensures
        is_free_of(s, d),
{
    let t = s + d;
    let at = s.len() as int;
    assert(t.subrange(at, at + d.len()) == d);
    assert forall|j: int| 0 <= j < s.len() implies t[j] != d[0] by {
        assert(t[j] == s[j]);
    }
    lemma_found_at(t, d, 0, at);
}

fn delimiter_of(kind: SpanKind) -> (d: Vec<char>)
    ensures
        d@ == delimiter(kind),
{
    match kind {
        SpanKind::Bold => vec!['*', '*'],
        SpanKind::Italic => vec!['*'],
        SpanKind::InlineCode => vec!['`'],
    }
}

fn tone_of(kind: SpanKind) -> (tone: Tone)
    ensures
        tone == span_tone(kind),
{
    match kind {
        SpanKind::Bold => Tone::Strong,
        SpanKind::Italic => Tone::Emphasis,
        SpanKind::InlineCode => Tone::Code,
    }
}

/// One scan over `s` for the spans of one kind.
pub fn scan_spans(kind: SpanKind, s: &[char]) -> (out: Vec<char>)
    ensures
        is_scanned(kind, s@, out@),
{
    let d = delimiter_of(kind);
    let tone = tone_of(kind);
    let mut out: Vec<char> = Vec::new();
    let mut pos: usize = 0;
    assert(s@.skip(0) == s@);
    assert forall|rest: Seq<char>| #[trigger] is_scanned(kind, s@.skip(0), rest) implies is_scanned(
        kind,
        s@,
        out@ + rest,
    ) by {
        assert(out@ + rest == rest);
    }
    loop
        invariant_except_break
            forall|rest: Seq<char>| #[trigger]
                is_scanned(kind, s@.skip(pos as int), rest) ==> is_scanned(kind, s@, out@ + rest),
        invariant
            pos <= s.len(),
            d@ == delimiter(kind),
            tone == span_tone(kind),
        ensures
            is_scanned(kind, s@, out@),
        decreases s.len() - pos,
    {
        let ghost left = s@.skip(pos as int);
        proof {
            lemma_find_in_rest(s@, d@, pos as int, pos as int);
            lemma_find_from(s@, d@, pos as int);
        }
        let open = match find(s, d.as_slice(), pos) {
            Some(i) => i,
            None => {
                proof {
                    lemma_scan_unpaired(kind, left);
                }
                append(&mut out, slice_of(s, pos, s.len()).as_slice());
                break ;
            },
        };
        proof {
            lemma_find_in_rest(s@, d@, pos as int, open + d@.len());
            lemma_find_from(s@, d@, open + d@.len());
        }
        let close = match find(s, d.as_slice(), open + d.len()) {
            Some(i) => i,
            None => {
                proof {
                    lemma_scan_unpaired(kind, left);
                }
                append(&mut out, slice_of(s, pos, s.len()).as_slice());
                break ;
            },
        };
        let inner = slice_of(s, open + d.len(), close);
        let painted = paint(tone, inner.as_slice());
        let ghost before = out@;
        append(&mut out, slice_of(s, pos, open).as_slice());
        append(&mut out, painted.as_slice());
        let next: usize = close + d.len();
        proof {
            assert(first_span(left, d@) == Some((open - pos, close - pos)));
            assert(left.subrange(open - pos + d@.len(), close - pos) == inner@);
            assert(left.skip(close - pos + d@.len()) == s@.skip(next as int));
            assert(left.take(open - pos) == s@.subrange(pos as int, open as int));
            assert forall|rest: Seq<char>| #[trigger]
                is_scanned(kind, s@.skip(next as int), rest) implies is_scanned(
                kind,
                s@,
                out@ + rest,
            ) by {
                let mid = left.take(open - pos) + painted@ + rest;
                lemma_scan_paired(kind, left, open - pos, close - pos, painted@, rest);
                assert(before + mid == out@ + rest);
            }
        }
        pos = next;
    }
    out
}

/// The three scans, in their fixed order: bold, italic, inline code.
pub fn format_spans(line: &[char]) -> (out: Vec<char>)
    ensures
        is_span_formatted(line@, out@),
{
    let a = scan_spans(SpanKind::Bold, line);
    let b = scan_spans(SpanKind::Italic, a.as_slice());
    scan_spans(SpanKind::InlineCode, b.as_slice())
}

} // verus!
