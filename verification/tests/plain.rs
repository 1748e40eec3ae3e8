//! What the renderer gives where colours are off, and all that does not
//! depend on colours.
use colored::Colorize;
use cortex::classify::{classify_line, split_cells, ClassifiedLine};
use cortex::formatter::TextFormatter;
use cortex::highlight::Highlighter;
use cortex::paint::{paint, Tone};
use cortex::render::{format_blockquote, format_header, format_regular_line, RenderState};
use cortex::spans::{format_spans, scan_spans, SpanKind};
use cortex::table::{format_table_row, handle_empty_line};
use cortex::text::{
    chars_of, contains, ends_with, find, is_whitespace, matches_at, slice_of, split_lines,
    starts_with, string_of, trim,
};

fn colours_off() {
    colored::control::set_override(false);
}

fn chars(s: &str) -> Vec<char> {
    s.chars().collect()
}

fn text(v: Vec<char>) -> String {
    v.into_iter().collect()
}

fn by_repeated_replacement(line: &str) -> String {
    let mut formatted = line.to_string();
    while let Some(start) = formatted.find("**") {
        let Some(end) = formatted[start + 2..].find("**") else { break };
        let span = formatted[start + 2..start + 2 + end].bright_white().bold().to_string();
        formatted = formatted[..start].to_string() + &span + &formatted[start + 2 + end + 2..];
    }
    while let Some(start) = formatted.find('*') {
        let Some(end) = formatted[start + 1..].find('*') else { break };
        let span = formatted[start + 1..start + 1 + end].italic().to_string();
        formatted = formatted[..start].to_string() + &span + &formatted[start + 1 + end + 1..];
    }
    while let Some(start) = formatted.find('`') {
        let Some(end) = formatted[start + 1..].find('`') else { break };
        let span = formatted[start + 1..start + 1 + end].yellow().to_string();
        formatted = formatted[..start].to_string() + &span + &formatted[start + 1 + end + 1..];
    }
    formatted
}

fn lines_over(alphabet: &[char], longest: usize) -> Vec<String> {
    let mut all = vec![String::new()];
    let mut last = vec![String::new()];
    for _ in 0..longest {
        let mut next = Vec::new();
        for line in &last {
            for c in alphabet {
                let mut longer = line.clone();
                longer.push(*c);
                next.push(longer);
            }
        }
        all.extend(next.iter().cloned());
        last = next;
    }
    all
}

fn rule() -> String {
    "─".repeat(40)
}

#[test]
fn plain_line_comes_back_with_a_terminator() {
    colours_off();
    let formatter = TextFormatter::new();
    assert_eq!(formatter.format_text("just some words, no markup"), "just some words, no markup\n");
}

#[test]
fn plain_lines_keep_their_order() {
    colours_off();
    let formatter = TextFormatter::new();
    assert_eq!(formatter.format_text("one\ntwo\nthree\n"), "one\ntwo\nthree\n");
}

#[test]
fn empty_text_gives_nothing() {
    colours_off();
    let formatter = TextFormatter::new();
    assert_eq!(formatter.format_text(""), "");
}

#[test]
fn empty_line_gives_a_terminator() {
    colours_off();
    let formatter = TextFormatter::new();
    assert_eq!(formatter.format_text("a\n\nb"), "a\n\nb\n");
}

#[test]
fn carriage_return_before_line_feed_is_dropped() {
    colours_off();
    let formatter = TextFormatter::new();
    assert_eq!(formatter.format_text("a\r\nb\r\n"), "a\nb\n");
}

#[test]
fn without_colours_a_tone_changes_nothing() {
    colours_off();
    assert_eq!(text(paint(Tone::Header, &chars("Title"))), "Title");
    assert_eq!(text(paint(Tone::Code, &chars("z"))), "z");
}

#[test]
fn without_colours_a_header_is_its_text() {
    colours_off();
    let formatter = TextFormatter::new();
    assert_eq!(formatter.format_text("### Title"), "Title\n");
    assert_eq!(formatter.format_text("#Title"), "Title\n");
    assert_eq!(formatter.format_text("######## Title  "), "Title\n");
    assert_eq!(text(format_header(&chars("Title"))), "Title\n");
}

#[test]
fn without_colours_a_quote_keeps_its_bar() {
    colours_off();
    let formatter = TextFormatter::new();
    assert_eq!(formatter.format_text("> quoted"), "│ quoted\n");
    assert_eq!(text(format_blockquote(&chars("quoted"))), "│ quoted\n");
}

#[test]
fn without_colours_spans_lose_their_delimiters() {
    colours_off();
    let formatter = TextFormatter::new();
    assert_eq!(formatter.format_text("**x** *y* `z`"), "x y z\n");
    assert_eq!(text(format_regular_line(&chars("a **b** c"))), "a b c\n");
}

#[test]
fn without_colours_a_scan_goes_on_behind_the_span() {
    colours_off();
    assert_eq!(text(scan_spans(SpanKind::Bold, &chars("x**a***b**"))), "xa*b**");
    assert_eq!(text(scan_spans(SpanKind::Bold, &chars("***a**"))), "*a");
    assert_eq!(text(scan_spans(SpanKind::Italic, &chars("*a*b*c*"))), "abc");
    assert_eq!(text(format_spans(&chars("no markup"))), "no markup");
}

#[test]
fn table_with_separator() {
    colours_off();
    let formatter = TextFormatter::new();
    let rule = rule();
    assert_eq!(
        formatter.format_text("| a | b |\n| --- | --- |\n| 1 | 2 |\n\n"),
        format!(
            "┌{rule}┐\n│        a        │        b        │\n├{rule}┤\n│        1        │        2        │\n└{rule}┘\n"
        )
    );
}

#[test]
fn separator_without_spaces_is_no_table_row() {
    colours_off();
    let formatter = TextFormatter::new();
    let rule = rule();
    assert_eq!(
        formatter.format_text("| a | b |\n|---|---|\n| 1 | 2 |\n\n"),
        format!(
            "┌{rule}┐\n│        a        │        b        │\n└{rule}┘\n|---|---|\n┌{rule}┐\n│        1        │        2        │\n└{rule}┘\n"
        )
    );
}

#[test]
fn table_open_at_the_end_is_closed() {
    colours_off();
    let formatter = TextFormatter::new();
    let rule = rule();
    assert_eq!(
        formatter.format_text("| a |"),
        format!("┌{rule}┐\n│        a        │\n└{rule}┘\n")
    );
}

#[test]
fn plain_line_closes_an_open_table() {
    colours_off();
    let formatter = TextFormatter::new();
    let rule = rule();
    assert_eq!(
        formatter.format_text("| a |\nafter"),
        format!("┌{rule}┐\n│        a        │\n└{rule}┘\nafter\n")
    );
}

#[test]
fn fence_closes_an_open_table() {
    colours_off();
    let formatter = TextFormatter::new();
    let rule = rule();
    assert_eq!(
        formatter.format_text("| a |\n```\n```\n| b |"),
        format!(
            "┌{rule}┐\n│        a        │\n└{rule}┘\n\n\n┌{rule}┐\n│        b        │\n└{rule}┘\n"
        )
    );
}

#[test]
fn cells_are_centred_in_fifteen() {
    let mut in_table = true;
    let cells = vec![chars("ab"), chars("abc"), chars("exactly15chars!"), chars("longer than fifteen")];
    assert_eq!(
        text(format_table_row(&cells, false, &mut in_table)),
        "│       ab        │       abc       │ exactly15chars! │ longer than fifteen │\n"
    );
    assert!(in_table);
}

#[test]
fn cells_are_centred_as_the_standard_formatter_does() {
    for width in 0..20 {
        let cell = "x".repeat(width);
        let mut in_table = true;
        assert_eq!(
            text(format_table_row(&vec![chars(&cell)], false, &mut in_table)),
            format!("│ {:^15} │\n", cell)
        );
    }
}

#[test]
fn cell_width_counts_characters_not_bytes() {
    let mut in_table = true;
    let cells = vec![chars("é│ü")];
    assert_eq!(text(format_table_row(&cells, false, &mut in_table)), "│       é│ü       │\n");
}

#[test]
fn first_row_opens_the_table() {
    let mut in_table = false;
    let cells = vec![chars("a")];
    assert_eq!(
        text(format_table_row(&cells, false, &mut in_table)),
        format!("┌{}┐\n│        a        │\n", rule())
    );
    assert!(in_table);
}

#[test]
fn separator_row_is_a_middle_border() {
    let mut in_table = true;
    let cells = vec![chars("---")];
    assert_eq!(text(format_table_row(&cells, true, &mut in_table)), format!("├{}┤\n", rule()));
    let mut closed = false;
    assert_eq!(
        text(format_table_row(&cells, true, &mut closed)),
        format!("┌{0}┐\n├{0}┤\n", rule())
    );
    assert!(closed);
}

#[test]
fn row_without_cells() {
    let mut in_table = true;
    let cells: Vec<Vec<char>> = Vec::new();
    assert_eq!(text(format_table_row(&cells, false, &mut in_table)), "│  │\n");
}

#[test]
fn empty_line_closes_a_table() {
    let mut in_table = true;
    assert_eq!(text(handle_empty_line(&mut in_table)), format!("└{}┘\n", rule()));
    assert!(!in_table);
    assert_eq!(text(handle_empty_line(&mut in_table)), "\n");
    assert!(!in_table);
}

#[test]
fn code_block_in_plain_text() {
    colours_off();
    let formatter = TextFormatter::new();
    assert_eq!(formatter.format_text("```text\nhello\n```"), "\n\x1b[38;2;192;197;206mhello\n\n");
}

#[test]
fn code_block_in_an_unknown_language() {
    let formatter = TextFormatter::new();
    assert_eq!(
        text(formatter.highlight_code(&chars("hello\n"), &chars("no-such-language"))),
        "\n\x1b[38;2;192;197;206mhello\n\n"
    );
}

#[test]
fn code_block_without_language() {
    let formatter = TextFormatter::new();
    assert_eq!(
        formatter.format_text("```\na\nb\n```\n"),
        "\n\x1b[38;2;192;197;206ma\n\x1b[38;2;192;197;206mb\n\n"
    );
}

#[test]
fn code_block_without_lines() {
    let formatter = TextFormatter::new();
    assert_eq!(formatter.format_text("```\n```"), "\n\n");
}

#[test]
fn highlighting_only_adds_colour_sequences() {
    let highlighter = Highlighter::new();
    let code = "fn main() {\n    let x = \"é\";\n}\n";
    let out = text(highlighter.highlight(&chars(code), &chars("rs")));
    let mut stripped = String::new();
    let mut rest = out.as_str();
    while let Some(at) = rest.find("\x1b[38;2;") {
        stripped.push_str(&rest[..at]);
        let end = at + rest[at..].find('m').unwrap();
        rest = &rest[end + 1..];
    }
    stripped.push_str(rest);
    assert_eq!(stripped, code);
    assert_ne!(out, code);
    assert!(out.starts_with("\x1b[38;2;"));
}

#[test]
fn a_known_language_gets_more_than_one_colour() {
    let highlighter = Highlighter::new();
    let plain = text(highlighter.highlight(&chars("let x = 1;\n"), &chars("text")));
    let rust = text(highlighter.highlight(&chars("let x = 1;\n"), &chars("rs")));
    assert_eq!(plain, "\x1b[38;2;192;197;206mlet x = 1;\n");
    assert_ne!(rust, plain);
}

#[test]
fn highlighting_gives_the_same_again() {
    let highlighter = Highlighter::new();
    let code = chars("def f(x):\n    return \"é\" * x\n");
    let first = highlighter.highlight(&code, &chars("py"));
    let second = highlighter.highlight(&code, &chars("py"));
    assert_eq!(first, second);
    assert_eq!(Highlighter::new().highlight(&code, &chars("py")), first);
}

#[test]
fn last_line_of_code_needs_no_line_feed() {
    let highlighter = Highlighter::new();
    assert_eq!(
        text(highlighter.highlight(&chars("a\nb"), &chars(""))),
        "\x1b[38;2;192;197;206ma\n\x1b[38;2;192;197;206mb"
    );
    assert_eq!(text(highlighter.highlight(&chars(""), &chars("rs"))), "");
}

#[test]
fn markup_inside_a_code_block_is_code() {
    let formatter = TextFormatter::new();
    assert_eq!(
        formatter.format_text("```\n# no header\n| no | table |\n```rust\n```"),
        "\n\x1b[38;2;192;197;206m# no header\n\x1b[38;2;192;197;206m| no | table |\n\x1b[38;2;192;197;206m```rust\n\n"
    );
}

#[test]
fn unclosed_fence_drops_what_follows() {
    colours_off();
    let formatter = TextFormatter::new();
    assert_eq!(formatter.format_text("```lang\nhello"), "");
    assert_eq!(formatter.format_text("before\n```lang\nhello\nworld\n"), "before\n");
}

#[test]
fn classes_of_lines() {
    assert_eq!(
        classify_line(&chars("```rust"), false),
        ClassifiedLine::FenceMarker { language: chars("rust") }
    );
    assert_eq!(
        classify_line(&chars("```  py  "), false),
        ClassifiedLine::FenceMarker { language: chars("py") }
    );
    assert_eq!(
        classify_line(&chars("```"), false),
        ClassifiedLine::FenceMarker { language: chars("") }
    );
    assert_eq!(
        classify_line(&chars("### Title"), false),
        ClassifiedLine::Header { level: 3, text: chars("Title") }
    );
    assert_eq!(
        classify_line(&chars("#Title"), false),
        ClassifiedLine::Header { level: 1, text: chars("Title") }
    );
    assert_eq!(
        classify_line(&chars("########"), false),
        ClassifiedLine::Header { level: 8, text: chars("") }
    );
    assert_eq!(
        classify_line(&chars("> quoted "), false),
        ClassifiedLine::Blockquote { text: chars("quoted ") }
    );
    assert_eq!(classify_line(&chars(">quoted"), false), ClassifiedLine::Plain { text: chars(">quoted") });
    assert_eq!(
        classify_line(&chars("| a | b |"), false),
        ClassifiedLine::TableRow { cells: vec![chars("a"), chars("b")], is_separator: false }
    );
    assert_eq!(
        classify_line(&chars("| --- | --- |"), true),
        ClassifiedLine::TableRow { cells: vec![chars("---"), chars("---")], is_separator: true }
    );
    assert_eq!(
        classify_line(&chars("|---|---|"), true),
        ClassifiedLine::Plain { text: chars("|---|---|") }
    );
    assert_eq!(classify_line(&chars(""), false), ClassifiedLine::Blank);
    assert_eq!(classify_line(&chars(" "), false), ClassifiedLine::Plain { text: chars(" ") });
    assert_eq!(classify_line(&chars("``x"), false), ClassifiedLine::Plain { text: chars("``x") });
}

#[test]
fn the_class_does_not_depend_on_the_table() {
    for line in ["| a |", "# h", "", "text", "```", "> q"] {
        assert_eq!(classify_line(&chars(line), false), classify_line(&chars(line), true));
    }
}

#[test]
fn empty_cells_are_left_out() {
    assert_eq!(split_cells(&chars("| a |  | b |")), vec![chars("a"), chars("b")]);
    assert_eq!(split_cells(&chars("| a | b |")), vec![chars("a"), chars("b")]);
    assert_eq!(split_cells(&chars("| |")), Vec::<Vec<char>>::new());
    assert_eq!(split_cells(&chars("x|  y z  |")), vec![chars("x"), chars("y z")]);
}

#[test]
fn state_moves_line_by_line() {
    colours_off();
    let formatter = TextFormatter::new();
    let mut state = RenderState::new();
    assert!(!state.in_code_block() && !state.in_table());

    assert_eq!(text(formatter.process_line(&chars("| a |"), &mut state)), format!("┌{}┐\n│        a        │\n", rule()));
    assert!(state.in_table() && !state.in_code_block());

    assert_eq!(text(formatter.process_line(&chars("```rust"), &mut state)), format!("└{}┘\n", rule()));
    assert!(state.in_code_block() && !state.in_table());
    assert_eq!(state.code_language(), &chars("rust"));
    assert_eq!(state.code_buffer(), &chars(""));

    assert_eq!(text(formatter.process_line(&chars("| a |"), &mut state)), "");
    assert_eq!(text(formatter.process_line(&chars("``` "), &mut state)), "");
    assert!(state.in_code_block() && !state.in_table());
    assert_eq!(state.code_buffer(), &chars("| a |\n``` \n"));

    let block = text(formatter.process_line(&chars("```"), &mut state));
    assert!(block.starts_with('\n') && block.ends_with("\n\n"));
    assert!(!state.in_code_block() && !state.in_table());
    assert_eq!(state.code_language(), &chars(""));
    assert_eq!(state.code_buffer(), &chars(""));

    assert_eq!(text(formatter.process_line(&chars(""), &mut state)), "\n");
    assert!(!state.in_code_block() && !state.in_table());
}

#[test]
fn white_space_is_unicode_white_space() {
    for c in ['\t', '\n', '\u{b}', '\u{c}', '\r', ' ', '\u{85}', '\u{a0}', '\u{1680}', '\u{2000}', '\u{200a}', '\u{2028}', '\u{2029}', '\u{202f}', '\u{205f}', '\u{3000}'] {
        assert!(is_whitespace(c));
    }
    for c in ['a', '\u{8}', '\u{e}', '\u{1f}', '!', '\u{84}', '\u{86}', '\u{a1}', '\u{180e}', '\u{1fff}', '\u{200b}', '\u{2027}', '\u{202a}', '\u{2060}', '\u{3001}', '\u{feff}'] {
        assert!(!is_whitespace(c));
    }
    let mut c = '\0';
    loop {
        assert_eq!(is_whitespace(c), c.is_whitespace());
        if c == char::MAX {
            break;
        }
        c = (c..=char::MAX).nth(1).unwrap();
    }
}

#[test]
fn trimming() {
    assert_eq!(trim(&chars("  a b \t")), chars("a b"));
    assert_eq!(trim(&chars("\u{3000}é\u{a0}")), chars("é"));
    assert_eq!(trim(&chars("   ")), chars(""));
    assert_eq!(trim(&chars("")), chars(""));
    assert_eq!(trim(&chars("x")), chars("x"));
}

#[test]
fn searching() {
    let s = chars("abcabc");
    assert_eq!(find(&s, &chars("bc"), 0), Some(1));
    assert_eq!(find(&s, &chars("bc"), 1), Some(1));
    assert_eq!(find(&s, &chars("bc"), 2), Some(4));
    assert_eq!(find(&s, &chars("bc"), 5), None);
    assert_eq!(find(&s, &chars("bc"), 7), None);
    assert_eq!(find(&s, &chars("x"), 0), None);
    assert_eq!(find(&s, &chars(""), 6), Some(6));
    assert_eq!(find(&s, &chars("abcabcd"), 0), None);
    assert!(contains(&s, &chars("ca")));
    assert!(!contains(&s, &chars("cb")));
    assert!(matches_at(&s, &chars("abc"), 3));
    assert!(!matches_at(&s, &chars("abc"), 4));
    assert!(!matches_at(&s, &chars("abc"), 2));
    assert!(starts_with(&s, &chars("abc")) && !starts_with(&s, &chars("bc")));
    assert!(ends_with(&s, &chars("abc")) && !ends_with(&s, &chars("ab")));
    assert!(!starts_with(&chars("ab"), &chars("abc")) && !ends_with(&chars("bc"), &chars("abc")));
    assert_eq!(slice_of(&s, 2, 4), chars("ca"));
}

#[test]
fn lines_of_a_text() {
    assert_eq!(split_lines(&chars("a\nb")), vec![chars("a"), chars("b")]);
    assert_eq!(split_lines(&chars("a\nb\n")), vec![chars("a"), chars("b")]);
    assert_eq!(split_lines(&chars("a\n\nb")), vec![chars("a"), chars(""), chars("b")]);
    assert_eq!(split_lines(&chars("\n")), vec![chars("")]);
    assert_eq!(split_lines(&chars("")), Vec::<Vec<char>>::new());
    assert_eq!(split_lines(&chars("a\r\nb\r")), vec![chars("a"), chars("b\r")]);
    assert_eq!(split_lines(&chars("a\r\r\n")), vec![chars("a\r")]);
    for sample in ["", "\n", "a", "a\n", "a\r\n", "\r\n\r\n", "a\rb\n\nc\r", "é\n│\r\n"] {
        let expected: Vec<Vec<char>> = sample.lines().map(chars).collect();
        assert_eq!(split_lines(&chars(sample)), expected);
    }
}

#[test]
fn strings_and_characters() {
    assert_eq!(chars_of("é│z"), vec!['é', '│', 'z']);
    assert_eq!(string_of(&['é', '│', 'z']), "é│z");
    assert_eq!(string_of(&chars_of("")), "");
}

#[test]
fn bare_spans_agree_with_repeated_replacement() {
    colours_off();
    for line in lines_over(&['*', '`', 'a', 'é'], 7) {
        assert_eq!(text(format_spans(&chars(&line))), by_repeated_replacement(&line), "{line:?}");
    }
}

#[test]
fn cells_agree_with_splitting_and_trimming() {
    for line in lines_over(&['|', ' ', 'a', '\u{a0}'], 7) {
        let expected: Vec<Vec<char>> =
            line.split('|').map(|s| s.trim()).filter(|s| !s.is_empty()).map(chars).collect();
        assert_eq!(split_cells(&chars(&line)), expected, "{line:?}");
    }
}

#[test]
fn trimming_agrees_with_the_standard_library() {
    for line in lines_over(&[' ', '\t', 'a', '\u{2003}', '\u{200b}'], 6) {
        assert_eq!(trim(&chars(&line)), chars(line.trim()), "{line:?}");
    }
}

#[test]
fn unknown_languages_are_highlighted_alike() {
    let highlighter = Highlighter::new();
    let code = chars("let x = \"a\"; // b\n");
    let plain = highlighter.highlight(&code, &chars("no-such-language"));
    assert_eq!(highlighter.highlight(&code, &chars("nor-this-one")), plain);
    assert_eq!(highlighter.highlight(&code, &chars("")), plain);
    assert_eq!(highlighter.highlight(&code, &chars("txt")), plain);
}

fn highlights_with_every_nth_grammar(part: usize, parts: usize) {
    let highlighter = Highlighter::new();
    let code = "fn f(x) { return \"é\" + 'c'; } // <b class=x>1</b>\n# {{ y }} $z @w\n";
    let stock = syntect::parsing::SyntaxSet::load_defaults_newlines();
    assert!(stock.syntaxes().len() > 50);
    for (at, grammar) in stock.syntaxes().iter().enumerate() {
        if at % parts != part {
            continue;
        }
        let out = text(highlighter.highlight(&chars(code), &chars(&grammar.name)));
        let mut stripped = String::new();
        let mut rest = out.as_str();
        while let Some(at) = rest.find("\x1b[38;2;") {
            stripped.push_str(&rest[..at]);
            let end = at + rest[at..].find('m').unwrap();
            rest = &rest[end + 1..];
        }
        stripped.push_str(rest);
        assert_eq!(stripped, code, "{:?}", grammar.name);
    }
}

#[test]
fn grammars_that_come_with_syntect_highlight_first_part() {
    highlights_with_every_nth_grammar(0, 6);
}

#[test]
fn grammars_that_come_with_syntect_highlight_second_part() {
    highlights_with_every_nth_grammar(1, 6);
}

#[test]
fn grammars_that_come_with_syntect_highlight_third_part() {
    highlights_with_every_nth_grammar(2, 6);
}

#[test]
fn grammars_that_come_with_syntect_highlight_fourth_part() {
    highlights_with_every_nth_grammar(3, 6);
}

#[test]
fn grammars_that_come_with_syntect_highlight_fifth_part() {
    highlights_with_every_nth_grammar(4, 6);
}

#[test]
fn grammars_that_come_with_syntect_highlight_sixth_part() {
    highlights_with_every_nth_grammar(5, 6);
}
