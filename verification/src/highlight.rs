//! The highlight adapter: code blocks are coloured by the `syntect` crate,
//! with its default grammars and one fixed theme.
//!
//! Which grammar a token finds, which pieces a grammar cuts a line into and
//! which colours a theme gives them is syntect's business: the contracts give
//! these answers names and say how the adapter puts them together. What they
//! say of every answer is that highlighting weaves colour sequences into the
//! code and changes nothing of the code itself.
use crate::text::{
    append, chars_of, find, find_from, lemma_find_from, lemma_find_in_rest, slice_of, string_of,
};
use syntect::easy::HighlightLines;
use syntect::highlighting::{Style, Theme, ThemeSet};
use syntect::parsing::{SyntaxReference, SyntaxSet};
use vstd::prelude::*;
use vstd::seq_lib::lemma_flatten_concat;

verus! {

/// syntect's `SyntaxSet`: a set of grammars.
#[verifier::external_type_specification]
#[verifier::external_body]
pub struct ExSyntaxSet(SyntaxSet);

/// syntect's `SyntaxReference`: one grammar of a set.
#[verifier::external_type_specification]
#[verifier::external_body]
pub struct ExSyntaxReference(SyntaxReference);

/// syntect's `ThemeSet`: themes by name.
#[verifier::external_type_specification]
#[verifier::external_body]
pub struct ExThemeSet(ThemeSet);

/// syntect's `Theme`: the colours for what a grammar tells apart.
#[verifier::external_type_specification]
#[verifier::external_body]
pub struct ExTheme(Theme);

/// syntect's `Style`: the colours and the font style of a piece of code.
#[verifier::external_type_specification]
#[verifier::external_body]
pub struct ExStyle(Style);

/// syntect's `HighlightLines`: a highlighter, which goes through a text line
/// by line and remembers where in the grammar it is.
#[verifier::external_type_specification]
#[verifier::external_body]
pub struct ExHighlightLines<'a>(HighlightLines<'a>);

/// syntect's `Error`.
#[verifier::external_type_specification]
#[verifier::external_body]
pub struct ExHighlightError(syntect::Error);

/// The names of the grammars that a syntax set holds.
pub uninterp spec fn syntax_names(syntaxes: SyntaxSet) -> Set<Seq<char>>;

/// The names under which a theme set holds its themes.
pub uninterp spec fn theme_names(themes: ThemeSet) -> Set<Seq<char>>;

/// Whether a syntax set is the one that comes with syntect, loaded as it
/// is. Its grammars were made by syntect's own loader: each has the context
/// that a highlighter starts in, and patterns that compile.
pub uninterp spec fn is_stock(syntaxes: SyntaxSet) -> bool;

/// Whether a highlighter was started on a grammar of a syntax set. Its lines
/// may be read with that set and with no other.
pub uninterp spec fn reads_with(lines: HighlightLines, syntaxes: SyntaxSet) -> bool;

/// The grammar that a syntax set finds for a language token, if it finds one.
pub uninterp spec fn grammar_for(syntaxes: SyntaxSet, token: Seq<char>) -> Option<SyntaxReference>;

/// The grammar of a syntax set that is named "Plain Text", where the set holds
/// one.
pub uninterp spec fn plain_grammar(syntaxes: SyntaxSet) -> SyntaxReference;

/// The theme that a theme set holds under a name, where it holds one.
pub uninterp spec fn theme_at(themes: ThemeSet, name: Seq<char>) -> Theme;

/// The highlighter at the start of a text, for a grammar and a theme.
pub uninterp spec fn started(syntax: SyntaxReference, theme: Theme) -> HighlightLines<'static>;

/// The styled pieces that a highlighter cuts the next line into, if it does
/// not fail on the line.
pub uninterp spec fn line_pieces(
    lines: HighlightLines,
    line: Seq<char>,
    syntaxes: SyntaxSet,
) -> Option<Seq<(Style, Seq<char>)>>;

/// The highlighter after a line.
pub uninterp spec fn after_line(
    lines: HighlightLines,
    line: Seq<char>,
    syntaxes: SyntaxSet,
) -> HighlightLines<'static>;

/// The colour that a style shows text in: its foreground, blended over its
/// background where the foreground is not opaque.
pub uninterp spec fn shade_of(style: Style) -> Shade;

/// Whether a grammar is one that a syntax set hands out: for some token, or
/// as its grammar for plain text.
pub open spec fn is_grammar_of(syntax: SyntaxReference, syntaxes: SyntaxSet) -> bool {
    ||| syntax_names(syntaxes).contains(plain_text()) && syntax == plain_grammar(syntaxes)
    ||| exists|token: Seq<char>| #[trigger] grammar_for(syntaxes, token) == Some(syntax)
}

/// The name of the grammar without rules, which a code block falls back to.
pub open spec fn plain_text() -> Seq<char> {
    "Plain Text"@
}

/// The name of the one theme in use.
pub open spec fn theme_name() -> Seq<char> {
    "base16-ocean.dark"@
}

/// A foreground colour.
pub struct Shade {
    pub red: u8,
    pub green: u8,
    pub blue: u8,
}

/// The decimal digits of `n`.
pub open spec fn decimal(n: nat) -> Seq<char>
    decreases n,
{
    let digit = seq!['0', '1', '2', '3', '4', '5', '6', '7', '8', '9'][(n % 10) as int];
    if n < 10 {
        seq![digit]
    } else {
        decimal(n / 10).push(digit)
    }
}

/// The sequence that sets a 24-bit foreground colour; nothing for no colour.
pub open spec fn shade_on(shade: Option<Shade>) -> Seq<char> {
    match shade {
        None => Seq::empty(),
        Some(c) => seq!['\u{1b}', '[', '3', '8', ';', '2', ';'] + decimal(c.red as nat) + seq![';']
            + decimal(c.green as nat) + seq![';'] + decimal(c.blue as nat) + seq!['m'],
    }
}

/// The pieces one after the other, each behind the sequence of its shade.
pub open spec fn woven(shades: Seq<Option<Shade>>, pieces: Seq<Seq<char>>) -> Seq<char>
    decreases pieces.len(),
{
    if pieces.len() == 0 {
        Seq::empty()
    } else {
        woven(shades.drop_last(), pieces.drop_last()) + shade_on(shades.last()) + pieces.last()
    }
}

/// Whether `out` is `code` with colour sequences woven in: cut into pieces
/// at some places, with a colour sequence, or nothing, before each piece.
pub open spec fn is_tinted(code: Seq<char>, out: Seq<char>) -> bool {
    exists|shades: Seq<Option<Shade>>, pieces: Seq<Seq<char>>|
        {
            &&& #[trigger] woven(shades, pieces) == out
            &&& shades.len() == pieces.len()
            &&& pieces.flatten() == code
        }
}

/// A rendered code block: the highlighted code between two line terminators.
pub open spec fn code_block(highlighted: Seq<char>) -> Seq<char> {
    seq!['\n'] + highlighted + seq!['\n']
}

/// Whether `out` is a rendered code block: the tinted code between two line
/// terminators.
pub open spec fn is_code_block(code: Seq<char>, out: Seq<char>) -> bool {
    &&& out.len() >= 2
    &&& out.first() == '\n'
    &&& out.last() == '\n'
    &&& is_tinted(code, out.subrange(1, out.len() - 1))
}

/// Weaving two runs of pieces one after the other is weaving them as one run.
pub proof fn lemma_woven_concat(
    shades: Seq<Option<Shade>>,
    pieces: Seq<Seq<char>>,
    more_shades: Seq<Option<Shade>>,
    more_pieces: Seq<Seq<char>>,
)
    requires
        shades.len() == pieces.len(),
        more_shades.len() == more_pieces.len(),
    ensures
        woven(shades + more_shades, pieces + more_pieces) == woven(shades, pieces) + woven(
            more_shades,
            more_pieces,
        ),
    decreases more_pieces.len(),
{
    if more_pieces.len() == 0 {
        assert(shades + more_shades == shades);
        assert(pieces + more_pieces == pieces);
    } else {
        assert((shades + more_shades).drop_last() == shades + more_shades.drop_last());
        assert((pieces + more_pieces).drop_last() == pieces + more_pieces.drop_last());
        lemma_woven_concat(shades, pieces, more_shades.drop_last(), more_pieces.drop_last());
    }
}

/// Highlighted pieces, their texts as sequences.
pub open spec fn piece_views(pieces: Seq<(Style, &str)>) -> Seq<(Style, Seq<char>)> {
    pieces.map_values(|p: (Style, &str)| (p.0, p.1@))
}

/// The texts of highlighted pieces.
pub open spec fn piece_texts(pieces: Seq<(Style, Seq<char>)>) -> Seq<Seq<char>> {
    pieces.map_values(|p: (Style, Seq<char>)| p.1)
}

/// The colours of highlighted pieces.
pub open spec fn piece_shades(pieces: Seq<(Style, Seq<char>)>) -> Seq<Option<Shade>> {
    pieces.map_values(|p: (Style, Seq<char>)| Some(shade_of(p.0)))
}

/// Styled pieces as text for the terminal: every piece behind the sequence
/// that sets its colour.
pub open spec fn escaped(pieces: Seq<(Style, Seq<char>)>) -> Seq<char> {
    woven(piece_shades(pieces), piece_texts(pieces))
}

/// What highlighting makes of one line: the line's pieces with their
/// colours, or the line as it is where the highlighter fails on it.
pub open spec fn highlighted_line(
    lines: HighlightLines,
    line: Seq<char>,
    syntaxes: SyntaxSet,
) -> Seq<char> {
    match line_pieces(lines, line, syntaxes) {
        Some(pieces) => escaped(pieces),
        None => line,
    }
}

/// The first line of `code`, with its line feed if it has one.
pub open spec fn first_line(code: Seq<char>) -> Seq<char> {
    match find_from(code, seq!['\n'], 0) {
        Some(end) => code.take(end + 1),
        None => code,
    }
}

/// What a highlighter makes of code: it takes the lines one after the
/// other, each with its line feed, and remembers from line to line where in
/// the grammar it is.
pub open spec fn highlighted_from(
    lines: HighlightLines,
    code: Seq<char>,
    syntaxes: SyntaxSet,
) -> Seq<char>
    decreases code.len(),
    via highlighted_from_ends
{
    if code.len() == 0 {
        Seq::empty()
    } else {
        let line = first_line(code);
        highlighted_line(lines, line, syntaxes) + highlighted_from(
            after_line(lines, line, syntaxes),
            code.skip(line.len() as int),
            syntaxes,
        )
    }
}

#[via_fn]
proof fn highlighted_from_ends(lines: HighlightLines, code: Seq<char>, syntaxes: SyntaxSet) {
    lemma_find_from(code, seq!['\n'], 0);
}

/// What highlighting makes of code in a language: the grammar is the one that
/// the syntax set finds for the language token or, where it finds none, the
/// one for plain text; the theme is always the same.
pub open spec fn highlighted(
    syntaxes: SyntaxSet,
    themes: ThemeSet,
    code: Seq<char>,
    language: Seq<char>,
) -> Seq<char> {
    let grammar = match grammar_for(syntaxes, language) {
        Some(found) => found,
        None => plain_grammar(syntaxes),
    };
    highlighted_from(started(grammar, theme_at(themes, theme_name())), code, syntaxes)
}

/// `SyntaxSet::load_defaults_newlines`: the grammars that come with syntect.
/// The grammar named "Plain Text" is among them.
#[verifier::external_body]
fn load_syntaxes() -> (syntaxes: SyntaxSet)
    ensures
        syntax_names(syntaxes).contains(plain_text()),
        is_stock(syntaxes),
{
    SyntaxSet::load_defaults_newlines()
}

/// `ThemeSet::load_defaults`: the themes that come with syntect. One of them
/// is held under the name "base16-ocean.dark".
#[verifier::external_body]
fn load_themes() -> (themes: ThemeSet)
    ensures
        theme_names(themes).contains(theme_name()),
{
    ThemeSet::load_defaults()
}

/// `SyntaxSet::find_syntax_by_token`: the grammar of the set for a language
/// token, if the set knows the token.
#[verifier::external_body]
fn syntax_for_token<'a>(syntaxes: &'a SyntaxSet, token: &str) -> (syntax: Option<
    &'a SyntaxReference,
>)
    ensures
        match syntax {
            Some(found) => grammar_for(*syntaxes, token@) == Some(*found),
            None => grammar_for(*syntaxes, token@) is None,
        },
{
    syntaxes.find_syntax_by_token(token)
}

/// `SyntaxSet::find_syntax_plain_text`: the grammar of the set that is named
/// "Plain Text". The call panics on a set that holds none.
#[verifier::external_body]
fn plain_text_syntax<'a>(syntaxes: &'a SyntaxSet) -> (syntax: &'a SyntaxReference)
    requires
        syntax_names(*syntaxes).contains(plain_text()),
    ensures
        *syntax == plain_grammar(*syntaxes),
{
    syntaxes.find_syntax_plain_text()
}

/// The theme that a set holds under a name (its field `themes`, by index).
/// The index panics on a name that the set does not hold.
#[verifier::external_body]
fn theme_named<'a>(themes: &'a ThemeSet, name: &str) -> (theme: &'a Theme)
    requires
        theme_names(*themes).contains(name@),
    ensures
        *theme == theme_at(*themes, name@),
{
    &themes.themes[name]
}

/// `HighlightLines::new`: a highlighter at the start of a text, for a grammar
/// and a theme. The call looks up the context that the grammar starts in and
/// panics on a grammar that has none: a grammar built by hand may lack it, a
/// grammar of the set that comes with syntect does not. The highlighter reads
/// with every such set that hands out the grammar.
#[verifier::external_body]
fn start_highlighter<'a>(syntax: &SyntaxReference, theme: &'a Theme) -> (lines: HighlightLines<
    'a,
>)
    requires
        exists|syntaxes: SyntaxSet| #[trigger] is_stock(syntaxes) && is_grammar_of(*syntax, syntaxes),
    ensures
        lines == started(*syntax, *theme),
        forall|syntaxes: SyntaxSet|
            is_stock(syntaxes) && is_grammar_of(*syntax, syntaxes) ==> #[trigger] reads_with(
                lines,
                syntaxes,
            ),
{
    HighlightLines::new(syntax, theme)
}

/// `HighlightLines::highlight_line`: the next line, cut into styled pieces.
/// Put together, the pieces are the line. The set has to be the one that the
/// highlighter's grammar came from: with another the call may panic.
#[verifier::external_body]
fn highlight_line<'b>(
    lines: &mut HighlightLines<'_>,
    line: &'b str,
    syntaxes: &SyntaxSet,
) -> (pieces: Result<Vec<(Style, &'b str)>, syntect::Error>)
    requires
        reads_with(*old(lines), *syntaxes),
    ensures
        *final(lines) == after_line(*old(lines), line@, *syntaxes),
        reads_with(*final(lines), *syntaxes),
        match pieces {
            Ok(p) => line_pieces(*old(lines), line@, *syntaxes) == Some(piece_views(p@))
                && piece_texts(piece_views(p@)).flatten() == line@,
            Err(_) => line_pieces(*old(lines), line@, *syntaxes) is None,
        },
{
    lines.highlight_line(line, syntaxes)
}

/// `syntect::util::as_24_bit_terminal_escaped`, without backgrounds: each
/// piece behind the sequence that sets its colour, `ESC[38;2;`, the red, green
/// and blue parts in decimal with `;` between them, and `m`.
#[verifier::external_body]
fn terminal_escaped(pieces: &Vec<(Style, &str)>) -> (out: String)
    ensures
        out@ == woven(
            pieces@.map_values(|p: (Style, &str)| Some(shade_of(p.0))),
            pieces@.map_values(|p: (Style, &str)| p.1@),
        ),
{
    syntect::util::as_24_bit_terminal_escaped(&pieces[..], false)
}

/// The grammars and themes that code blocks are highlighted with.
pub struct Highlighter {
    syntax_set: SyntaxSet,
    theme_set: ThemeSet,
}

impl Highlighter {
    #[verifier::type_invariant]
    spec fn holds_what_it_needs(self) -> bool {
        &&& is_stock(self.syntax_set)
        &&& syntax_names(self.syntax_set).contains(plain_text())
        &&& theme_names(self.theme_set).contains(theme_name())
    }

    /// The grammars.
    pub closed spec fn syntaxes(&self) -> SyntaxSet {
        self.syntax_set
    }

    /// The themes.
    pub closed spec fn themes(&self) -> ThemeSet {
        self.theme_set
    }

    /// What this highlighter makes of code in a language.
    pub open spec fn highlighted(&self, code: Seq<char>, language: Seq<char>) -> Seq<char> {
        highlighted(self.syntaxes(), self.themes(), code, language)
    }

    /// Whether it holds what highlighting needs: the grammars that come with
    /// syntect, among them the one for plain text, which code in an unknown
    /// language falls back to, and the one theme in use.
    pub open spec fn is_equipped(&self) -> bool {
        &&& is_stock(self.syntaxes())
        &&& syntax_names(self.syntaxes()).contains(plain_text())
        &&& theme_names(self.themes()).contains(theme_name())
    }

    /// Loads the grammars and the themes that come with syntect. The grammar
    /// for plain text and the theme in use are among them.
    pub fn new() -> (highlighter: Highlighter)
        ensures
            highlighter.is_equipped(),
    {
        Highlighter { syntax_set: load_syntaxes(), theme_set: load_themes() }
    }

    /// Highlights a block of code, line by line, each line with its
    /// terminator. The grammar is the one that syntect finds for the language
    /// token; where it finds none, the one for plain text. A line that the
    /// grammar fails on is passed through without colour. Whatever the
    /// grammar and the theme give, the result is the code with colour
    /// sequences woven in.
    pub fn highlight(&self, code: &[char], language: &[char]) -> (out: Vec<char>)
        ensures
            out@ == self.highlighted(code@, language@),
            is_tinted(code@, out@),
    {
        proof {
            use_type_invariant(self);
        }
        let token = string_of(language);
        let syntax = match syntax_for_token(&self.syntax_set, token.as_str()) {
            Some(syntax) => syntax,
            None => plain_text_syntax(&self.syntax_set),
        };
        let theme = theme_named(&self.theme_set, "base16-ocean.dark");
        let mut lines = start_highlighter(syntax, theme);
        let newline: Vec<char> = vec!['\n'];
        let mut out: Vec<char> = Vec::new();
        let mut pos: usize = 0;
        let ghost whole = self.highlighted(code@, language@);
        let ghost mut shades: Seq<Option<Shade>> = Seq::empty();
        let ghost mut pieces: Seq<Seq<char>> = Seq::empty();
        assert(code@.take(0) == Seq::<char>::empty());
        assert(code@.skip(0) == code@);
        assert(out@ + highlighted_from(lines, code@, self.syntax_set) == whole);
        while pos < code.len()
            invariant
                pos <= code.len(),
                newline@ == seq!['\n'],
                reads_with(lines, self.syntax_set),
                whole == out@ + highlighted_from(lines, code@.skip(pos as int), self.syntax_set),
                shades.len() == pieces.len(),
                out@ == woven(shades, pieces),
                pieces.flatten() == code@.take(pos as int),
            decreases code.len() - pos,
        {
            let ghost left = code@.skip(pos as int);
            let ghost reader = lines;
            let ghost before = out@;
            proof {
                lemma_find_from(code@, newline@, pos as int);
                lemma_find_in_rest(code@, newline@, pos as int, pos as int);
            }
            let end: usize = match find(code, newline.as_slice(), pos) {
                Some(i) => i + 1,
                None => code.len(),
            };
            let line = string_of(slice_of(code, pos, end).as_slice());
            assert(code@.take(end as int) == code@.take(pos as int) + line@);
            assert(first_line(left) == line@);
            assert(left.skip(line@.len() as int) == code@.skip(end as int));
            match highlight_line(&mut lines, line.as_str(), &self.syntax_set) {
                Ok(styled) => {
                    let escaped = terminal_escaped(&styled);
                    append(&mut out, chars_of(escaped.as_str()).as_slice());
                    proof {
                        let texts = piece_texts(piece_views(styled@));
                        let found = piece_shades(piece_views(styled@));
                        assert(texts == styled@.map_values(|p: (Style, &str)| p.1@));
                        assert(found == styled@.map_values(
                            |p: (Style, &str)| Some(shade_of(p.0)),
                        ));
                        lemma_woven_concat(shades, pieces, found, texts);
                        lemma_flatten_concat(pieces, texts);
                        shades = shades + found;
                        pieces = pieces + texts;
                    }
                },
                Err(_) => {
                    append(&mut out, slice_of(code, pos, end).as_slice());
                    proof {
                        lemma_woven_concat(shades, pieces, seq![None], seq![line@]);
                        lemma_flatten_concat(pieces, seq![line@]);
                        assert(seq![line@].flatten() == line@) by {
                            seq![line@].lemma_flatten_one_element();
                        }
                        assert(woven(seq![None], seq![line@]) == line@) by {
                            let bare: Seq<Option<Shade>> = seq![None];
                            let one = seq![line@];
                            assert(one.drop_last().len() == 0);
                            assert(woven(bare.drop_last(), one.drop_last()) == Seq::<char>::empty());
                            assert(shade_on(bare.last()) == Seq::<char>::empty());
                            assert(one.last() == line@);
                        }
                        shades = shades + seq![None];
                        pieces = pieces + seq![line@];
                    }
                },
            }
            assert(out@ == before + highlighted_line(reader, line@, self.syntax_set));
            assert(whole == out@ + highlighted_from(lines, code@.skip(end as int), self.syntax_set));
            pos = end;
        }
        assert(code@.take(code.len() as int) == code@);
        assert(code@.skip(code.len() as int).len() == 0);
        assert(out@ + Seq::<char>::empty() == out@);
        out
    }
}

} // verus!
