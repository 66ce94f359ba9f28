use section_stats::count::{
    count_line, count_words, find_comment, is_whitespace, tally_text, Counts,
};

fn chars(text: &str) -> Vec<char> {
    text.chars().collect()
}

fn tally(text: &str) -> (usize, usize, usize) {
    let found = tally_text(&chars(text));
    (found.words, found.lines, found.chars)
}

#[test]
fn empty_text_counts_nothing() {
    assert_eq!(tally(""), (0, 0, 0));
}

#[test]
fn one_line_is_counted() {
    assert_eq!(tally("Hello world"), (2, 1, 11));
}

#[test]
fn lines_are_added_up() {
    assert_eq!(tally("one two\nthree\n\nfour five six"), (6, 3, 25));
}

#[test]
fn final_line_feed_makes_no_line() {
    assert_eq!(tally("one\n"), tally("one"));
    assert_eq!(tally("one\n"), (1, 1, 3));
}

#[test]
fn blank_lines_count_nothing() {
    assert_eq!(tally("\n\n\n"), (0, 0, 0));
}

#[test]
fn line_of_spaces_is_a_line_without_words() {
    assert_eq!(tally("   "), (0, 1, 3));
}

#[test]
fn comment_lines_count_nothing() {
    assert_eq!(tally("% just a comment"), (0, 0, 0));
    assert_eq!(tally("a\n% just a comment\nb"), (2, 2, 2));
}

#[test]
fn trailing_comment_is_cut_off() {
    assert_eq!(tally("text % trailing comment"), (1, 1, 5));
}

#[test]
fn escaped_percent_starts_no_comment() {
    assert_eq!(tally("50\\% of all % the rest"), (3, 1, 12));
    assert_eq!(tally("a\\%b"), (1, 1, 4));
}

#[test]
fn percent_at_the_start_of_a_line_is_never_escaped() {
    assert_eq!(tally("\\\n% c"), (0, 0, 0));
}

#[test]
fn command_lines_count_nothing() {
    assert_eq!(tally("\\begin{document}"), (0, 0, 0));
    assert_eq!(tally("a b\n\\label{x} more words\nc"), (3, 2, 4));
}

#[test]
fn command_inside_a_line_is_counted() {
    assert_eq!(tally("see \\ref{x}"), (2, 1, 11));
}

#[test]
fn math_delimiter_line_counts_nothing() {
    assert_eq!(tally("$$"), (0, 0, 0));
    assert_eq!(tally("$$% note"), (0, 0, 0));
    assert_eq!(tally("a\n$$\nx = 1\n$$\nb"), (5, 3, 7));
}

#[test]
fn only_the_bare_math_delimiter_is_skipped() {
    assert_eq!(tally("$$ "), (1, 1, 3));
    assert_eq!(tally("$$x$$"), (1, 1, 5));
    assert_eq!(tally("$"), (1, 1, 1));
    assert_eq!(tally(" $$"), (1, 1, 3));
}

#[test]
fn carriage_return_before_a_line_feed_is_no_character() {
    assert_eq!(tally("ab cd\r\nef\r\n"), (3, 2, 7));
    assert_eq!(tally("$$\r\n"), (0, 0, 0));
    assert_eq!(tally("\r\n"), (0, 0, 0));
}

#[test]
fn carriage_return_at_the_end_of_the_text_is_a_character() {
    assert_eq!(tally("ab\r"), (1, 1, 3));
}

#[test]
fn words_are_split_at_any_white_space() {
    assert_eq!(tally("a\tb\u{a0}c\u{2003}d\u{3000}e  f"), (6, 1, 12));
}

#[test]
fn white_space_is_what_unicode_classes_as_such() {
    for c in ['\t', '\n', '\u{b}', '\u{c}', '\r', ' ', '\u{85}', '\u{a0}', '\u{1680}', '\u{2000}',
        '\u{2005}', '\u{200a}', '\u{2028}', '\u{2029}', '\u{202f}', '\u{205f}', '\u{3000}'] {
        assert!(is_whitespace(c));
    }
    for c in ['a', '0', '%', '\\', '\u{8}', '\u{e}', '\u{1f}', '\u{200b}', '\u{180e}', '\u{feff}',
        '\u{2060}'] {
        assert!(!is_whitespace(c));
    }
}

#[test]
fn white_space_agrees_with_the_standard_library() {
    for code in 0u32..0x30000 {
        if let Some(c) = char::from_u32(code) {
            assert_eq!(is_whitespace(c), c.is_whitespace());
        }
    }
}

#[test]
fn counts_agree_with_the_standard_library() {
    let text = "Hello  world\r\n\tsecond line here \n\nlast\u{a0}one";
    let mut words = 0;
    let mut lines = 0;
    let mut count = 0;
    for line in text.lines() {
        words += line.split_whitespace().count();
        lines += 1;
        count += line.chars().count();
    }
    assert_eq!(tally(text), (words, lines - 1, count));
}

#[test]
fn words_of_a_part_of_the_text() {
    let text = chars("ab cd ef");
    assert_eq!(count_words(&text, 0, 8), 3);
    assert_eq!(count_words(&text, 1, 4), 2);
    assert_eq!(count_words(&text, 2, 3), 0);
    assert_eq!(count_words(&text, 4, 4), 0);
}

#[test]
fn comment_of_a_part_of_the_text() {
    let text = chars("ab%cd\\%e%");
    assert_eq!(find_comment(&text, 0, 9), 2);
    assert_eq!(find_comment(&text, 3, 9), 8);
    assert_eq!(find_comment(&text, 3, 8), 8);
    assert_eq!(find_comment(&text, 6, 9), 6);
    assert_eq!(find_comment(&text, 0, 2), 2);
}

#[test]
fn one_line_of_the_text() {
    let text = chars("ab cd % x\n\\x");
    assert_eq!(count_line(&text, 0, 9), Counts { chars: 6, words: 2, lines: 1 });
    assert_eq!(count_line(&text, 6, 9), Counts { chars: 0, words: 0, lines: 0 });
    assert_eq!(count_line(&text, 10, 12), Counts { chars: 0, words: 0, lines: 0 });
    assert_eq!(count_line(&text, 11, 12), Counts { chars: 1, words: 1, lines: 1 });
}
