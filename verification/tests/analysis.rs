use section_stats::report::{analyze, Report};
use section_stats::section::Section;

fn counts(section: &Section) -> (usize, usize, usize) {
    (section.words, section.lines, section.chars)
}

fn totals(section: &Section) -> (usize, usize, usize) {
    (section.total_words, section.total_lines, section.total_chars)
}

fn report(text: &str) -> Report {
    analyze(text).unwrap()
}

#[test]
fn single_section_counts_its_body() {
    let found = report("\\section{Intro}\nHello world");
    assert_eq!(found.sections.len(), 1);
    let intro = &found.sections[0];
    assert_eq!(intro.name, "Intro");
    assert_eq!(intro.level, 0);
    assert_eq!(counts(intro), (2, 1, 11));
    assert_eq!(totals(intro), (2, 1, 11));
    assert_eq!(found.total.name, "Total");
    assert_eq!(counts(&found.total), (2, 1, 11));
    assert_eq!(totals(&found.total), (2, 1, 11));
}

#[test]
fn nested_section_rolls_up_into_its_parent() {
    let found = report("\\section{A}\nx\n\\subsection{A.1}\ny z");
    assert_eq!(found.sections.len(), 2);
    let outer = &found.sections[0];
    let inner = &found.sections[1];
    assert_eq!(outer.name, "A");
    assert_eq!(inner.name, "A.1");
    assert_eq!(outer.level, 0);
    assert_eq!(inner.level, 1);
    assert_eq!(inner.parents, [Some(0), None]);
    assert_eq!(counts(outer), (1, 1, 1));
    assert_eq!(counts(inner), (2, 1, 3));
    assert_eq!(totals(inner), (2, 1, 3));
    assert_eq!(totals(outer), (3, 2, 4));
    assert_eq!(counts(&found.total), (3, 2, 4));
    assert_eq!(totals(&found.total), (3, 2, 4));
}

#[test]
fn subsection_before_any_section_has_no_parent() {
    let found = report("\\subsection{Early}\nsome text here\n\\section{Late}\nmore\n");
    assert_eq!(found.sections.len(), 2);
    let early = &found.sections[0];
    let late = &found.sections[1];
    assert_eq!(early.level, 1);
    assert_eq!(early.parents, [None, None]);
    assert_eq!(counts(early), (3, 1, 14));
    assert_eq!(totals(early), (3, 1, 14));
    assert_eq!(counts(late), (1, 1, 4));
    assert_eq!(totals(late), (1, 1, 4));
    assert_eq!(counts(&found.total), (4, 2, 18));
}

#[test]
fn comments_are_not_counted() {
    let found = report("\\section{C}\n% just a comment\ntext % trailing comment\n");
    assert_eq!(counts(&found.sections[0]), (1, 1, 5));
    assert_eq!(counts(&found.total), (1, 1, 5));
}

#[test]
fn empty_document_has_no_sections() {
    let found = report("");
    assert!(found.sections.is_empty());
    assert_eq!(found.total.name, "Total");
    assert_eq!(counts(&found.total), (0, 0, 0));
    assert_eq!(totals(&found.total), (0, 0, 0));
}

#[test]
fn document_without_headings_has_an_empty_total() {
    let found = report("no heading in sight\njust prose\n");
    assert!(found.sections.is_empty());
    assert_eq!(counts(&found.total), (0, 0, 0));
}

#[test]
fn text_before_the_first_heading_belongs_to_no_section() {
    let found = report("preamble words\n\\section{One}\nbody\n");
    assert_eq!(found.sections.len(), 1);
    assert_eq!(counts(&found.sections[0]), (1, 1, 4));
    assert_eq!(counts(&found.total), (1, 1, 4));
}

#[test]
fn total_is_the_sum_of_the_own_counts() {
    let text = "\\section{A}\none two\n\\subsection{B}\nthree\n\\subsubsection{C}\nfour five six\n\
                \\section{D}\nseven\n\\subsection{E}\neight nine\n";
    let found = report(text);
    assert_eq!(found.sections.len(), 5);
    let mut words = 0;
    let mut lines = 0;
    let mut chars = 0;
    for section in &found.sections {
        words += section.words;
        lines += section.lines;
        chars += section.chars;
    }
    assert_eq!(counts(&found.total), (words, lines, chars));
    assert_eq!(counts(&found.total), (9, 5, 40));
}

#[test]
fn top_level_totals_add_up_to_the_total() {
    let text = "\\section{A}\none two\n\\subsection{B}\nthree\n\\subsubsection{C}\nfour five six\n\
                \\section{D}\nseven\n\\subsection{E}\neight nine\n";
    let found = report(text);
    let mut words = 0;
    let mut lines = 0;
    let mut chars = 0;
    for section in &found.sections {
        if section.level == 0 {
            words += section.total_words;
            lines += section.total_lines;
            chars += section.total_chars;
        }
    }
    assert_eq!(totals(&found.total), (words, lines, chars));
}

#[test]
fn every_descendant_is_counted_once_in_each_ancestor() {
    let text = "\\section{A}\none two\n\\subsection{B}\nthree\n\\subsubsection{C}\nfour five six\n\
                \\section{D}\nseven\n\\subsection{E}\neight nine\n";
    let found = report(text);
    let a = &found.sections[0];
    let b = &found.sections[1];
    let c = &found.sections[2];
    let d = &found.sections[3];
    let e = &found.sections[4];
    assert_eq!(b.parents, [Some(0), None]);
    assert_eq!(c.parents, [Some(0), Some(1)]);
    assert_eq!(d.parents, [None, None]);
    assert_eq!(e.parents, [Some(3), None]);
    assert_eq!(totals(c), counts(c));
    assert_eq!(totals(b), (4, 2, 18));
    assert_eq!(totals(a), (6, 3, 25));
    assert_eq!(totals(e), (2, 1, 10));
    assert_eq!(totals(d), (3, 2, 15));
}

#[test]
fn sections_keep_the_order_of_the_headings() {
    let found = report("\\section{One}\n\\subsection{Two}\n\\section{Three}\n\\subsubsection{Four}\n");
    let names: Vec<&str> = found.sections.iter().map(|s| s.name.as_str()).collect();
    assert_eq!(names, vec!["One", "Two", "Three", "Four"]);
    let levels: Vec<usize> = found.sections.iter().map(|s| s.level).collect();
    assert_eq!(levels, vec![0, 1, 0, 2]);
    for pair in found.sections.windows(2) {
        assert!(pair[0].start < pair[0].end);
        assert!(pair[0].end <= pair[1].start);
    }
}

#[test]
fn analysis_of_the_same_text_gives_the_same_output() {
    let text = "\\section{A}\nx % c\n\\subsection{B}\ny z\n$$\n\\begin{x}\n";
    let first = report(text).render();
    let second = report(text).render();
    assert_eq!(first, second);
}

#[test]
fn characters_are_counted_not_bytes() {
    let found = report("\\section{Über}\nhéllo wörld ñ\n");
    assert_eq!(found.sections[0].name, "Über");
    assert_eq!(counts(&found.sections[0]), (3, 1, 13));
}

#[test]
fn report_is_shown_section_by_section_and_then_the_total() {
    let found = report("\\section{A}\nx\n\\subsection{A.1}\ny z");
    let expected = "A\nown words: 1, lines: 1, chars: 1\ntot words: 3, lines 2, chars: 4\n\n\
                    \tA.1\n\twords: 2, lines: 1, chars: 3\n\n\
                    \nTotal\nwords: 3, lines: 2, chars: 4\n\n";
    assert_eq!(found.render(), expected);
}

#[test]
fn report_of_an_empty_document_shows_the_total_alone() {
    assert_eq!(report("").render(), "\nTotal\nwords: 0, lines: 0, chars: 0\n\n");
}
