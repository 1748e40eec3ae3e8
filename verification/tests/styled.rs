//! What the renderer gives where colours are on.
use colored::Colorize;
use cortex::formatter::TextFormatter;
use cortex::paint::{paint, Tone};
use cortex::render::{format_blockquote, format_header, format_regular_line};
use cortex::spans::{format_spans, scan_spans, SpanKind};

fn colours_on() {
    colored::control::set_override(true);
}

fn chars(s: &str) -> Vec<char> {
    s.chars().collect()
}

fn text(v: Vec<char>) -> String {
    v.into_iter().collect()
}

fn by_repeated_replacement(line: &str) -> String {
    let mut formatted = line.to_string();
    while let Some(start) = formatted.find("**") {
        let Some(end) = formatted[start + 2..].find("**") else { break };
        let span = formatted[start + 2..start + 2 + end].bright_white().bold().to_string();
        formatted = formatted[..start].to_string() + &span + &formatted[start + 2 + end + 2..];
    }
    while let Some(start) = formatted.find('*') {
        let Some(end) = formatted[start + 1..].find('*') else { break };
        let span = formatted[start + 1..start + 1 + end].italic().to_string();
        formatted = formatted[..start].to_string() + &span + &formatted[start + 1 + end + 1..];
    }
    while let Some(start) = formatted.find('`') {
        let Some(end) = formatted[start + 1..].find('`') else { break };
        let span = formatted[start + 1..start + 1 + end].yellow().to_string();
        formatted = formatted[..start].to_string() + &span + &formatted[start + 1 + end + 1..];
    }
    formatted
}

fn lines_over(alphabet: &[char], longest: usize) -> Vec<String> {
    let mut all = vec![String::new()];
    let mut last = vec![String::new()];
    for _ in 0..longest {
        let mut next = Vec::new();
        for line in &last {
            for c in alphabet {
                let mut longer = line.clone();
                longer.push(*c);
                next.push(longer);
            }
        }
        all.extend(next.iter().cloned());
        last = next;
    }
    all
}

#[test]
fn header_tone_is_bold_cyan() {
    colours_on();
    assert_eq!(text(paint(Tone::Header, &chars("Title"))), "\x1b[1;36mTitle\x1b[0m");
}

#[test]
fn quote_tone_is_italic_bright_blue() {
    colours_on();
    assert_eq!(text(paint(Tone::Quote, &chars("said"))), "\x1b[3;94msaid\x1b[0m");
}

#[test]
fn strong_tone_is_bold_bright_white() {
    colours_on();
    assert_eq!(text(paint(Tone::Strong, &chars("x"))), "\x1b[1;97mx\x1b[0m");
}

#[test]
fn emphasis_tone_is_italic() {
    colours_on();
    assert_eq!(text(paint(Tone::Emphasis, &chars("y"))), "\x1b[3my\x1b[0m");
}

#[test]
fn code_tone_is_yellow() {
    colours_on();
    assert_eq!(text(paint(Tone::Code, &chars("z"))), "\x1b[33mz\x1b[0m");
}

#[test]
fn empty_text_is_still_styled() {
    colours_on();
    assert_eq!(text(paint(Tone::Code, &chars(""))), "\x1b[33m\x1b[0m");
}

#[test]
fn a_style_goes_on_after_a_reset_inside_it() {
    colours_on();
    assert_eq!(
        text(paint(Tone::Emphasis, &chars("a \x1b[1;97mb\x1b[0m c"))),
        "\x1b[3ma \x1b[1;97mb\x1b[0m\x1b[3m c\x1b[0m"
    );
}

#[test]
fn a_style_goes_on_after_each_of_two_resets() {
    colours_on();
    assert_eq!(
        text(paint(Tone::Code, &chars("\x1b[0m\x1b[0mx"))),
        "\x1b[33m\x1b[0m\x1b[33m\x1b[0m\x1b[33mx\x1b[0m"
    );
}

#[test]
fn plain_line_comes_back_with_colours_on_too() {
    colours_on();
    let formatter = TextFormatter::new();
    assert_eq!(formatter.format_text("a < b | c_d"), "a < b | c_d\n");
}

#[test]
fn header_of_three_hashes() {
    colours_on();
    let formatter = TextFormatter::new();
    assert_eq!(formatter.format_text("### Title"), "\x1b[1;36mTitle\x1b[0m\n");
}

#[test]
fn header_without_space() {
    colours_on();
    let formatter = TextFormatter::new();
    assert_eq!(formatter.format_text("#Title"), "\x1b[1;36mTitle\x1b[0m\n");
}

#[test]
fn header_of_seven_hashes() {
    colours_on();
    let formatter = TextFormatter::new();
    assert_eq!(formatter.format_text("####### Title"), "\x1b[1;36mTitle\x1b[0m\n");
}

#[test]
fn header_text_is_not_scanned_for_spans() {
    colours_on();
    assert_eq!(text(format_header(&chars("a **b**"))), "\x1b[1;36ma **b**\x1b[0m\n");
}

#[test]
fn quote_begins_with_a_bar() {
    colours_on();
    let formatter = TextFormatter::new();
    assert_eq!(formatter.format_text("> quoted"), "│ \x1b[3;94mquoted\x1b[0m\n");
}

#[test]
fn quote_text_is_not_trimmed_nor_scanned() {
    colours_on();
    assert_eq!(text(format_blockquote(&chars(" *q* "))), "│ \x1b[3;94m *q* \x1b[0m\n");
}

#[test]
fn three_spans_in_one_line() {
    colours_on();
    let formatter = TextFormatter::new();
    assert_eq!(
        formatter.format_text("**x** *y* `z`"),
        "\x1b[1;97mx\x1b[0m \x1b[3my\x1b[0m \x1b[33mz\x1b[0m\n"
    );
}

#[test]
fn two_bold_spans_in_one_line() {
    colours_on();
    assert_eq!(
        text(scan_spans(SpanKind::Bold, &chars("a **b** c **d** e"))),
        "a \x1b[1;97mb\x1b[0m c \x1b[1;97md\x1b[0m e"
    );
}

#[test]
fn the_bold_scan_leaves_single_stars() {
    colours_on();
    assert_eq!(text(scan_spans(SpanKind::Bold, &chars("*y* **x**"))), "*y* \x1b[1;97mx\x1b[0m");
}

#[test]
fn an_unmatched_delimiter_stays() {
    colours_on();
    assert_eq!(text(format_regular_line(&chars("a `b` and `c"))), "a \x1b[33mb\x1b[0m and `c\n");
}

#[test]
fn a_third_delimiter_stays() {
    colours_on();
    assert_eq!(text(scan_spans(SpanKind::Italic, &chars("*a*b*c"))), "\x1b[3ma\x1b[0mb*c");
}

#[test]
fn an_empty_span_is_styled() {
    colours_on();
    assert_eq!(text(scan_spans(SpanKind::InlineCode, &chars("``"))), "\x1b[33m\x1b[0m");
}

#[test]
fn italic_around_bold_resumes_after_the_bold_span() {
    colours_on();
    assert_eq!(
        text(format_spans(&chars("*a **b** c*"))),
        "\x1b[3ma \x1b[1;97mb\x1b[0m\x1b[3m c\x1b[0m"
    );
}

#[test]
fn spans_keep_characters_of_several_bytes_whole() {
    colours_on();
    assert_eq!(
        text(format_spans(&chars("é **ü│** `—` ∎"))),
        "é \x1b[1;97mü│\x1b[0m \x1b[33m—\x1b[0m ∎"
    );
}

#[test]
fn a_second_pass_need_not_give_the_first_again() {
    colours_on();
    let formatter = TextFormatter::new();
    let once = formatter.format_text("```\n**x**\n```");
    let twice = formatter.format_text(&once);
    assert_eq!(once, "\n\x1b[38;2;192;197;206m**x**\n\n");
    assert_eq!(twice, "\n\x1b[38;2;192;197;206m\x1b[1;97mx\x1b[0m\n\n");
    assert_ne!(once, twice);
}

#[test]
fn a_header_closes_an_open_table() {
    colours_on();
    let formatter = TextFormatter::new();
    let rule = "─".repeat(40);
    assert_eq!(
        formatter.format_text("| a |\n# T"),
        format!("┌{rule}┐\n│        a        │\n└{rule}┘\n\x1b[1;36mT\x1b[0m\n")
    );
}

#[test]
fn styled_spans_agree_with_repeated_replacement() {
    colours_on();
    for line in lines_over(&['*', '`', 'a', 'é'], 7) {
        assert_eq!(text(format_spans(&chars(&line))), by_repeated_replacement(&line), "{line:?}");
    }
}

#[test]
fn a_scan_takes_delimiters_and_adds_sequences_only() {
    colours_on();
    for (line, bare) in [
        ("a **b** c **d", "a b c **d"),
        ("**é** ** │ **", "é  │ "),
        ("no pair ** here", "no pair ** here"),
    ] {
        let out = text(scan_spans(SpanKind::Bold, &chars(line)));
        assert_eq!(out.replace("\x1b[1;97m", "").replace("\x1b[0m", ""), bare);
    }
}
