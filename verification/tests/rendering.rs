use section_stats::render::push_decimal;
use section_stats::section::Section;

fn decimal(n: usize) -> String {
    let mut out = String::new();
    push_decimal(&mut out, n);
    out
}

#[test]
fn numbers_are_written_in_decimal() {
    assert_eq!(decimal(0), "0");
    assert_eq!(decimal(7), "7");
    assert_eq!(decimal(10), "10");
    assert_eq!(decimal(1234567890), "1234567890");
    assert_eq!(decimal(usize::MAX), usize::MAX.to_string());
}

#[test]
fn number_is_written_behind_what_is_there() {
    let mut out = String::from("n = ");
    push_decimal(&mut out, 405);
    assert_eq!(out, "n = 405");
}

#[test]
fn section_without_descendants_shows_one_line_of_counts() {
    let section = Section {
        name: String::from("Intro"),
        words: 2,
        lines: 1,
        chars: 11,
        total_words: 2,
        total_lines: 1,
        total_chars: 11,
        ..Section::default()
    };
    assert_eq!(section.render(), "Intro\nwords: 2, lines: 1, chars: 11\n");
}

#[test]
fn section_with_descendants_shows_own_and_total_counts() {
    let section = Section {
        name: String::from("A"),
        words: 1,
        lines: 1,
        chars: 1,
        total_words: 3,
        total_lines: 2,
        total_chars: 4,
        ..Section::default()
    };
    assert_eq!(
        section.render(),
        "A\nown words: 1, lines: 1, chars: 1\ntot words: 3, lines 2, chars: 4\n"
    );
}

#[test]
fn one_differing_count_is_enough_for_two_lines() {
    let section = Section {
        name: String::from("n"),
        words: 1,
        lines: 1,
        chars: 5,
        total_words: 1,
        total_lines: 2,
        total_chars: 5,
        ..Section::default()
    };
    assert_eq!(
        section.render(),
        "n\nown words: 1, lines: 1, chars: 5\ntot words: 1, lines 2, chars: 5\n"
    );
}

#[test]
fn lines_are_indented_by_the_level() {
    let mut section = Section {
        name: String::from("deep"),
        level: 2,
        words: 10,
        lines: 20,
        chars: 300,
        total_words: 10,
        total_lines: 20,
        total_chars: 300,
        ..Section::default()
    };
    assert_eq!(section.render(), "\t\tdeep\n\t\twords: 10, lines: 20, chars: 300\n");
    section.total_chars = 301;
    assert_eq!(
        section.render(),
        "\t\tdeep\n\t\town words: 10, lines: 20, chars: 300\n\t\ttot words: 10, lines 20, chars: 301\n"
    );
}

#[test]
fn default_section_is_empty() {
    let blank = Section::default();
    assert_eq!(blank.name, "");
    assert_eq!((blank.start, blank.end, blank.level), (0, 0, 0));
    assert_eq!((blank.chars, blank.words, blank.lines), (0, 0, 0));
    assert_eq!((blank.total_chars, blank.total_words, blank.total_lines), (0, 0, 0));
    assert_eq!(blank.parents, [None, None]);
    assert_eq!(blank.render(), "\nwords: 0, lines: 0, chars: 0\n");
}

#[test]
fn text_is_written_behind_what_is_there() {
    let section = Section { name: String::from("x"), ..Section::default() };
    let mut out = String::from(">");
    section.render_into(&mut out);
    assert_eq!(out, ">x\nwords: 0, lines: 0, chars: 0\n");
}
