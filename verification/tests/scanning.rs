use section_stats::scan::{level_of, scan_headings, sections_from_captures};
use section_stats::section::Section;

fn scan(text: &str) -> Vec<Section> {
    scan_headings(text).unwrap()
}

fn outline(text: &str) -> Vec<(usize, String)> {
    scan(text).into_iter().map(|s| (s.level, s.name)).collect()
}

fn named(level: usize, name: &str) -> (usize, String) {
    (level, String::from(name))
}

#[test]
fn text_without_headings_has_none() {
    assert!(scan("").is_empty());
    assert!(scan("plain text\nsection subsection\n").is_empty());
}

#[test]
fn heading_gives_name_level_and_place() {
    let found = scan("\\section{Intro}\nbody");
    assert_eq!(found.len(), 1);
    assert_eq!(found[0].name, "Intro");
    assert_eq!(found[0].level, 0);
    assert_eq!(found[0].start, 0);
    assert_eq!(found[0].end, 15);
}

#[test]
fn new_section_has_no_counts_and_no_parents() {
    let found = scan("\\subsection{X}\nbody words");
    let fresh = &found[0];
    assert_eq!((fresh.chars, fresh.words, fresh.lines), (0, 0, 0));
    assert_eq!((fresh.total_chars, fresh.total_words, fresh.total_lines), (0, 0, 0));
    assert_eq!(fresh.parents, [None, None]);
}

#[test]
fn level_is_the_number_of_sub_prefixes() {
    assert_eq!(
        outline("\\section{a}\n\\subsection{b}\n\\subsubsection{c}\n\\subsubsubsection{d}\n"),
        vec![named(0, "a"), named(1, "b"), named(2, "c"), named(3, "d")]
    );
}

#[test]
fn starred_headings_are_headings() {
    assert_eq!(
        outline("\\section*{a}\n\\subsection*{b}\n"),
        vec![named(0, "a"), named(1, "b")]
    );
}

#[test]
fn empty_title_is_allowed() {
    assert_eq!(outline("\\section{}\ntext"), vec![named(0, "")]);
}

#[test]
fn title_ends_at_the_first_closing_brace() {
    let found = scan("\\section{A \\emph{b} c}\n");
    assert_eq!(found[0].name, "A \\emph{b");
    assert_eq!(found[0].end, 19);
}

#[test]
fn title_may_span_lines() {
    let found = scan("\\section{two\nlines}\nbody");
    assert_eq!(found[0].name, "two\nlines");
    assert_eq!(found[0].end, 19);
}

#[test]
fn commented_heading_is_no_heading() {
    assert!(scan("% \\section{hidden}\n").is_empty());
    assert!(scan("text % \\subsection{hidden}\n").is_empty());
}

#[test]
fn escaped_percent_before_a_heading_hides_nothing() {
    let found = scan("100\\% \\section{shown}\n");
    assert_eq!(found.len(), 1);
    assert_eq!(found[0].name, "shown");
    assert_eq!(found[0].start, 6);
}

#[test]
fn heading_begins_at_its_keyword() {
    let found = scan("one\n  lead \\subsection{S} trail\n");
    assert_eq!(found.len(), 1);
    assert_eq!(found[0].start, 11);
    assert_eq!(found[0].end, 25);
    assert_eq!(found[0].level, 1);
}

#[test]
fn keyword_without_braces_is_no_heading() {
    assert!(scan("\\section\n\\subsection [x]\n").is_empty());
}

#[test]
fn other_commands_are_no_headings() {
    assert!(scan("\\chapter{x}\n\\paragraph{y}\n").is_empty());
}

#[test]
fn last_keyword_of_a_line_is_the_heading() {
    let found = scan("\\section{a} \\subsection{b}\n");
    assert_eq!(found.len(), 1);
    assert_eq!(found[0].name, "b");
    assert_eq!(found[0].level, 1);
}

#[test]
fn offsets_are_byte_offsets() {
    let found = scan("é\n\\section{ü}\nx");
    assert_eq!(found[0].start, 3);
    assert_eq!(found[0].end, 15);
    assert_eq!(found[0].name, "ü");
}

#[test]
fn headings_come_in_the_order_of_the_text() {
    let found = scan("\\section{1}\na\n\\subsection{2}\nb\n\\section{3}\n");
    assert_eq!(found.len(), 3);
    assert_eq!((found[0].start, found[0].end), (0, 11));
    assert_eq!((found[1].start, found[1].end), (14, 28));
    assert_eq!((found[2].start, found[2].end), (31, 42));
}

#[test]
fn keyword_level_counts_sub() {
    let level = |keyword: &str| level_of(&keyword.chars().collect());
    assert_eq!(level(""), 0);
    assert_eq!(level("\\section"), 0);
    assert_eq!(level("\\subsection*"), 1);
    assert_eq!(level("\\subsubsubsection"), 3);
    assert_eq!(level("su"), 0);
    assert_eq!(level("sub"), 1);
    assert_eq!(level("susubsub"), 2);
}

#[test]
fn section_is_read_from_the_groups_of_a_match() {
    let text = "ab \\subsection*{Title} rest";
    let groups = vec![Some((0, 22)), Some((3, 15)), Some((16, 21))];
    let made = Section::from_capture(text, &groups).unwrap();
    assert_eq!(made.start, 3);
    assert_eq!(made.end, 22);
    assert_eq!(made.name, "Title");
    assert_eq!(made.level, 1);
}

#[test]
fn missing_title_group_gives_an_empty_name() {
    let text = "\\section{x}";
    let absent = Section::from_capture(text, &vec![Some((0, 11)), Some((0, 8)), None]).unwrap();
    assert_eq!(absent.name, "");
    let short = Section::from_capture(text, &vec![Some((0, 11)), Some((0, 8))]).unwrap();
    assert_eq!(short.name, "");
    assert_eq!(short.end, 11);
}

#[test]
fn groups_that_do_not_fit_the_text_are_refused() {
    let text = "\\section{é}";
    assert!(Section::from_capture(text, &vec![]).is_none());
    assert!(Section::from_capture(text, &vec![Some((0, 12))]).is_none());
    assert!(Section::from_capture(text, &vec![None, Some((0, 8))]).is_none());
    assert!(Section::from_capture(text, &vec![Some((0, 12)), None]).is_none());
    assert!(Section::from_capture(text, &vec![Some((0, 13)), Some((0, 8))]).is_none());
    assert!(Section::from_capture(text, &vec![Some((0, 10)), Some((0, 8))]).is_none());
    assert!(Section::from_capture(text, &vec![Some((0, 12)), Some((8, 0))]).is_none());
    assert!(Section::from_capture(text, &vec![Some((0, 8)), Some((9, 12))]).is_none());
    assert!(Section::from_capture(text, &vec![Some((0, 12)), Some((0, 8)), Some((9, 10))]).is_none());
    assert!(Section::from_capture(text, &vec![Some((0, 12)), Some((0, 8)), Some((9, 11))]).is_some());
}

#[test]
fn sections_are_made_match_by_match() {
    let text = "\\section{a}\n\\subsection{b}\n";
    let found = vec![
        vec![Some((0, 11)), Some((0, 8)), Some((9, 10))],
        vec![Some((12, 26)), Some((12, 23)), Some((24, 25))],
    ];
    let made = sections_from_captures(text, &found).unwrap();
    assert_eq!(made.len(), 2);
    assert_eq!((made[0].level, made[0].name.as_str()), (0, "a"));
    assert_eq!((made[1].level, made[1].name.as_str()), (1, "b"));
    assert!(sections_from_captures(text, &vec![]).unwrap().is_empty());
}

#[test]
fn matches_out_of_order_are_refused() {
    let text = "\\section{a}\n\\subsection{b}\n";
    let found = vec![
        vec![Some((12, 26)), Some((12, 23)), Some((24, 25))],
        vec![Some((0, 11)), Some((0, 8)), Some((9, 10))],
    ];
    assert!(sections_from_captures(text, &found).is_none());
    let overlapping = vec![
        vec![Some((0, 13)), Some((0, 8)), Some((9, 10))],
        vec![Some((12, 26)), Some((12, 23)), Some((24, 25))],
    ];
    assert!(sections_from_captures(text, &overlapping).is_none());
    let broken = vec![vec![Some((0, 11)), Some((0, 8))], vec![Some((0, 99)), Some((0, 8))]];
    assert!(sections_from_captures(text, &broken).is_none());
}
