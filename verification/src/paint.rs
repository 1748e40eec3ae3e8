//! Terminal styling. The escape sequences come from the `colored` crate, which
//! decides by itself, from the environment and its process-wide switch, whether
//! it styles at all: every contract here allows both answers.
use crate::text::{chars_of, string_of};
use colored::Colorize;
use vstd::prelude::*;

verus! {

/// What a piece of text is styled as.
#[derive(Clone, Copy, Debug, PartialEq, Eq, Structural)]
pub enum Tone {
    /// A header line: bold cyan.
    Header,
    /// A quoted line: italic bright blue.
    Quote,
    /// A bold span: bold bright white.
    Strong,
    /// An italic span.
    Emphasis,
    /// An inline code span: yellow.
    Code,
}

/// The sequence that ends all styling.
pub open spec fn sgr_reset() -> Seq<char> {
    seq!['\u{1b}', '[', '0', 'm']
}

/// The sequence that switches a tone on.
pub open spec fn sgr_on(tone: Tone) -> Seq<char> {
    match tone {
        Tone::Header => seq!['\u{1b}', '[', '1', ';', '3', '6', 'm'],
        Tone::Quote => seq!['\u{1b}', '[', '3', ';', '9', '4', 'm'],
        Tone::Strong => seq!['\u{1b}', '[', '1', ';', '9', '7', 'm'],
        Tone::Emphasis => seq!['\u{1b}', '[', '3', 'm'],
        Tone::Code => seq!['\u{1b}', '[', '3', '3', 'm'],
    }
}

/// `text` with `on` put behind every reset sequence in it, so that a style
/// goes on after a styled piece inside it has ended.
pub open spec fn resumed(text: Seq<char>, on: Seq<char>) -> Seq<char>
    decreases text.len(),
{
    if text.len() == 0 {
        text
    } else if sgr_reset().is_prefix_of(text) {
        sgr_reset() + on + resumed(text.skip(4), on)
    } else {
        seq![text[0]] + resumed(text.skip(1), on)
    }
}

/// `text` between the tone's opening sequence and a reset.
pub open spec fn styled(tone: Tone, text: Seq<char>) -> Seq<char> {
    sgr_on(tone) + resumed(text, sgr_on(tone)) + sgr_reset()
}

/// Whether `out` is what styling `text` may give: the text itself where
/// colours are off, the styled text where they are on.
pub open spec fn is_painted(tone: Tone, text: Seq<char>, out: Seq<char>) -> bool {
    out == text || out == styled(tone, text)
}

/// Text without an escape character is styled by putting it between the
/// opening sequence and a reset.
pub proof fn lemma_styled_plain(tone: Tone, text: Seq<char>)
    requires
        !text.contains('\u{1b}'),
    ensures
        styled(tone, text) == sgr_on(tone) + text + sgr_reset(),
{
    lemma_resumed_plain(text, sgr_on(tone));
}

proof fn lemma_resumed_plain(text: Seq<char>, on: Seq<char>)
    requires
        !text.contains('\u{1b}'),
    ensures
        resumed(text, on) == text,
    decreases text.len(),
{
    if text.len() > 0 {
        assert(text[0] != '\u{1b}');
        assert(sgr_reset()[0] == '\u{1b}');
        if sgr_reset().is_prefix_of(text) {
            assert(text.subrange(0, 4)[0] == sgr_reset()[0]);
        }
        assert forall|c: char| text.skip(1).contains(c) implies text.contains(c) by {
            let i = choose|i: int| 0 <= i < text.skip(1).len() && text.skip(1)[i] == c;
            assert(text[i + 1] == c);
        }
        lemma_resumed_plain(text.skip(1), on);
        assert(seq![text[0]] + text.skip(1) == text);
    }
}

/// Whether `out` is `base` with sequences put in: copies of `on` and of the
/// reset, at any places, and nothing else.
pub open spec fn is_laced(on: Seq<char>, base: Seq<char>, out: Seq<char>) -> bool
    decreases out.len(),
{
    if out.len() == 0 {
        base.len() == 0
    } else {
        ||| base.len() > 0 && out[0] == base[0] && is_laced(on, base.skip(1), out.skip(1))
        ||| on.len() > 0 && on.is_prefix_of(out) && is_laced(on, base, out.skip(on.len() as int))
        ||| sgr_reset().is_prefix_of(out) && is_laced(on, base, out.skip(4))
    }
}

/// Text with nothing put in is laced.
proof fn lemma_laced_same(on: Seq<char>, text: Seq<char>)
    ensures
        is_laced(on, text, text),
    decreases text.len(),
{
    if text.len() > 0 {
        lemma_laced_same(on, text.skip(1));
    }
}

/// Laced texts one after the other are laced.
pub proof fn lemma_laced_concat(
    on: Seq<char>,
    base: Seq<char>,
    out: Seq<char>,
    more_base: Seq<char>,
    more_out: Seq<char>,
)
    requires
        is_laced(on, base, out),
        is_laced(on, more_base, more_out),
    ensures
        is_laced(on, base + more_base, out + more_out),
    decreases out.len(),
{
    let whole = out + more_out;
    if out.len() == 0 {
        assert(base + more_base == more_base);
        assert(whole == more_out);
    } else if base.len() > 0 && out[0] == base[0] && is_laced(on, base.skip(1), out.skip(1)) {
        lemma_laced_concat(on, base.skip(1), out.skip(1), more_base, more_out);
        assert((base + more_base).skip(1) == base.skip(1) + more_base);
        assert(whole.skip(1) == out.skip(1) + more_out);
    } else if on.len() > 0 && on.is_prefix_of(out) && is_laced(
        on,
        base,
        out.skip(on.len() as int),
    ) {
        lemma_laced_concat(on, base, out.skip(on.len() as int), more_base, more_out);
        assert(whole.skip(on.len() as int) == out.skip(on.len() as int) + more_out);
        assert(whole.subrange(0, on.len() as int) == out.subrange(0, on.len() as int));
    } else {
        lemma_laced_concat(on, base, out.skip(4), more_base, more_out);
        assert(whole.skip(4) == out.skip(4) + more_out);
        assert(whole.subrange(0, 4) == out.subrange(0, 4));
    }
}

/// A sequence before laced text leaves it laced.
proof fn lemma_laced_behind(on: Seq<char>, base: Seq<char>, out: Seq<char>, reset: bool)
    requires
        on.len() > 0,
        is_laced(on, base, out),
    ensures
        is_laced(
            on,
            base,
            (if reset {
                sgr_reset()
            } else {
                on
            }) + out,
        ),
{
    let lead = if reset {
        sgr_reset()
    } else {
        on
    };
    let whole = lead + out;
    assert(whole.subrange(0, lead.len() as int) == lead);
    assert(whole.skip(lead.len() as int) == out);
}

/// A style that is resumed after every reset in a text laces the text.
proof fn lemma_laced_resumed(on: Seq<char>, text: Seq<char>)
    requires
        on.len() > 0,
    ensures
        is_laced(on, text, resumed(text, on)),
    decreases text.len(),
{
    if text.len() == 0 {
    } else if sgr_reset().is_prefix_of(text) {
        let rest = text.skip(4);
        lemma_laced_resumed(on, rest);
        lemma_laced_behind(on, rest, resumed(rest, on), false);
        lemma_laced_same(on, sgr_reset());
        lemma_laced_concat(on, sgr_reset(), sgr_reset(), rest, on + resumed(rest, on));
        assert(sgr_reset() + rest == text);
        assert(sgr_reset() + (on + resumed(rest, on)) == sgr_reset() + on + resumed(rest, on));
    } else {
        let rest = text.skip(1);
        lemma_laced_resumed(on, rest);
        let out = seq![text[0]] + resumed(rest, on);
        assert(out.skip(1) == resumed(rest, on));
    }
}

/// Styling changes nothing of a text: whatever comes back is the text with
/// the tone's sequence and resets put in.
pub proof fn lemma_painted_is_laced(tone: Tone, text: Seq<char>, out: Seq<char>)
    requires
        is_painted(tone, text, out),
    ensures
        is_laced(sgr_on(tone), text, out),
{
    let on = sgr_on(tone);
    if out == text {
        lemma_laced_same(on, text);
    } else {
        lemma_laced_resumed(on, text);
        lemma_laced_behind(on, text, resumed(text, on), false);
        lemma_laced_behind(on, Seq::empty(), Seq::empty(), true);
        assert(sgr_reset() + Seq::<char>::empty() == sgr_reset());
        lemma_laced_concat(on, text, on + resumed(text, on), Seq::empty(), sgr_reset());
        assert(text + Seq::<char>::empty() == text);
    }
}

/// `Colorize::cyan`, `Colorize::bold` and `ColoredString`'s `to_string`. With
/// colours off the text comes back as it is; with colours on it comes back
/// behind `ESC[1;36m`, with that sequence repeated after each reset in it, and
/// before a reset. (The switch is read more than once in a call: this holds
/// while nothing flips it meanwhile.)
#[verifier::external_body]
fn bold_cyan(text: &str) -> (out: String)
    ensures
        is_painted(Tone::Header, text@, out@),
{
    text.cyan().bold().to_string()
}

/// `Colorize::bright_blue`, `Colorize::italic` and `to_string`: as `bold_cyan`,
/// with `ESC[3;94m`.
#[verifier::external_body]
fn italic_bright_blue(text: &str) -> (out: String)
    ensures
        is_painted(Tone::Quote, text@, out@),
{
    text.bright_blue().italic().to_string()
}

/// `Colorize::bright_white`, `Colorize::bold` and `to_string`: as `bold_cyan`,
/// with `ESC[1;97m`.
#[verifier::external_body]
fn bold_bright_white(text: &str) -> (out: String)
    ensures
        is_painted(Tone::Strong, text@, out@),
{
    text.bright_white().bold().to_string()
}

/// `Colorize::italic` and `to_string`: as `bold_cyan`, with `ESC[3m`.
#[verifier::external_body]
fn italic(text: &str) -> (out: String)
    ensures
        is_painted(Tone::Emphasis, text@, out@),
{
    text.italic().to_string()
}

/// `Colorize::yellow` and `to_string`: as `bold_cyan`, with `ESC[33m`.
#[verifier::external_body]
fn yellow(text: &str) -> (out: String)
    ensures
        is_painted(Tone::Code, text@, out@),
{
    text.yellow().to_string()
}

/// Styles `text` in the given tone.
pub fn paint(tone: Tone, text: &[char]) -> (out: Vec<char>)
    ensures
        is_painted(tone, text@, out@),
{
    let plain = string_of(text);
    let painted = match tone {
        Tone::Header => bold_cyan(plain.as_str()),
        Tone::Quote => italic_bright_blue(plain.as_str()),
        Tone::Strong => bold_bright_white(plain.as_str()),
        Tone::Emphasis => italic(plain.as_str()),
        Tone::Code => yellow(plain.as_str()),
    };
    chars_of(painted.as_str())
}

} // verus!
