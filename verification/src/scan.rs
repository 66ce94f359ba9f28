//! Finding the headings of a document.
//!
//! A heading is a line that holds, before any comment, a sectioning keyword
//! (`\section`, `\subsection`, `\subsubsection`, ..., each with or without a
//! star) and a title in braces. The search itself is a regular expression
//! handed to the `regex` crate; what is made of its matches is verified here.

use crate::section::Section;
use crate::text::{check_span, is_span, slice_span, span_chars, to_chars};
use vstd::prelude::*;

verus! {

/// The form of a heading. Group 1 is the keyword, group 2 the title, which
/// ends at the first closing brace. A `%` that a backslash stands directly
/// before starts no comment.
pub const HEADING_PATTERN: &'static str = r"^(?:\\%|[^%\n])*(\\(?:sub)*section\*?)\{((?:.|\n)*?)\}";

/// The byte offsets of one capture group, where it took part in the match.
pub type GroupSpan = Option<(usize, usize)>;

/// What the `regex` crate finds when `text` is searched for `pattern`: for
/// each match, in the order in which they were found, the byte offsets of
/// every capture group. `None` where the pattern cannot be compiled.
pub uninterp spec fn captures_of(pattern: Seq<char>, multi_line: bool, text: Seq<char>) -> Option<
    Seq<Seq<GroupSpan>>,
>;

/// Compiles `pattern` with `regex::RegexBuilder` (`new`, `multi_line`,
/// `build`) and walks `Regex::captures_iter` over `text`, reading from each
/// `Captures` the `start` and `end` of every group. The contract gives the
/// outcome a name and claims nothing else of it.
#[verifier::external_body]
fn find_captures(pattern: &str, multi_line: bool, text: &str) -> (found: Option<
    Vec<Vec<GroupSpan>>,
>)
    ensures
        found.deep_view() == captures_of(pattern@, multi_line, text@),
{
    let re = regex::RegexBuilder::new(pattern).multi_line(multi_line).build().ok()?;
    Some(
        re.captures_iter(text).map(
            |found| found.iter().map(|group| group.map(|m| (m.start(), m.end()))).collect(),
        ).collect(),
    )
}

/// What is read off a heading: where it stands, its title and its depth.
pub struct Heading {
    pub start: int,
    pub end: int,
    pub name: Seq<char>,
    pub level: nat,
}

impl Section {
    /// The heading that this section belongs to.
    pub open spec fn heading(&self) -> Heading {
        Heading {
            start: self.start as int,
            end: self.end as int,
            name: self.name@,
            level: self.level as nat,
        }
    }
}

/// The headings of the sections, in their order.
pub open spec fn headings(sections: Seq<Section>) -> Seq<Heading> {
    Seq::new(sections.len(), |i: int| sections[i].heading())
}

/// `sub` stands at index `i` of `s`.
pub open spec fn sub_at(s: Seq<char>, i: int) -> bool {
    0 <= i && i + 3 <= s.len() && s[i] == 's' && s[i + 1] == 'u' && s[i + 2] == 'b'
}

/// The number of times `sub` stands in `s` at or behind index `i`, each
/// occurrence beginning where the one before it has ended.
pub open spec fn subs_from(s: Seq<char>, i: nat) -> nat
    decreases s.len() - i,
{
    if i + 3 > s.len() {
        0
    } else if sub_at(s, i as int) {
        1 + subs_from(s, i + 3)
    } else {
        subs_from(s, i + 1)
    }
}

/// The depth that a keyword stands for: 0 for `\section`, and one more for
/// each `sub` before it.
pub open spec fn keyword_level(keyword: Seq<char>) -> nat {
    subs_from(keyword, 0)
}

/// The group with number `k`, if the match has one and it took part.
pub open spec fn group(groups: Seq<GroupSpan>, k: int) -> GroupSpan {
    if 0 <= k < groups.len() {
        groups[k]
    } else {
        None
    }
}

/// The groups of a match can be read as a heading of `text`: the whole
/// match and the keyword are there, every group that is there is a run of
/// whole characters of `text`, and the keyword begins inside the match.
pub open spec fn capture_fits(text: Seq<char>, groups: Seq<GroupSpan>) -> bool {
    &&& group(groups, 0) matches Some(whole)
    &&& is_span(text, whole.0 as int, whole.1 as int)
    &&& group(groups, 1) matches Some(keyword)
    &&& is_span(text, keyword.0 as int, keyword.1 as int)
    &&& keyword.0 <= whole.1
    &&& (group(groups, 2) matches Some(title) ==> is_span(text, title.0 as int, title.1 as int))
}

/// The heading that the groups of a match stand for: it begins with the
/// keyword and ends with the whole match; its title is group 2, or empty
/// where that group took no part.
pub open spec fn heading_of(text: Seq<char>, groups: Seq<GroupSpan>) -> Heading {
    let whole = group(groups, 0).unwrap();
    let keyword = group(groups, 1).unwrap();
    Heading {
        start: keyword.0 as int,
        end: whole.1 as int,
        name: match group(groups, 2) {
            Some(title) => span_chars(text, title.0 as int, title.1 as int),
            None => Seq::empty(),
        },
        level: keyword_level(span_chars(text, keyword.0 as int, keyword.1 as int)),
    }
}

/// The matches can be read as the headings of `text`: each of them fits,
/// and none begins before an earlier one has ended.
pub open spec fn captures_fit(text: Seq<char>, found: Seq<Seq<GroupSpan>>) -> bool {
    &&& forall|k: int| 0 <= k < found.len() ==> capture_fits(text, #[trigger] found[k])
    &&& forall|i: int, j: int|
        0 <= i < j < found.len() ==> heading_of(text, #[trigger] found[i]).end <= heading_of(
            text,
            #[trigger] found[j],
        ).start
}

/// The headings that the matches stand for, in the order of the matches, or
/// nothing where the matches cannot be read as headings of `text`.
pub open spec fn headings_of(text: Seq<char>, found: Seq<Seq<GroupSpan>>) -> Option<Seq<Heading>> {
    if captures_fit(text, found) {
        Some(Seq::new(found.len(), |k: int| heading_of(text, found[k])))
    } else {
        None
    }
}

/// The headings of a document, or nothing where the search for them fails.
pub open spec fn headings_in(text: Seq<char>) -> Option<Seq<Heading>> {
    match captures_of(HEADING_PATTERN@, true, text) {
        Some(found) => headings_of(text, found),
        None => None,
    }
}

/// Every section is a run of whole characters of `text`, and each ends
/// before the later ones begin.
pub open spec fn sections_fit(text: Seq<char>, sections: Seq<Section>) -> bool {
    &&& forall|i: int|
        0 <= i < sections.len() ==> is_span(
            text,
            (#[trigger] sections[i]).start as int,
            sections[i].end as int,
        )
    &&& forall|i: int, j: int|
        0 <= i < j < sections.len() ==> (#[trigger] sections[i]).end <= (
        #[trigger] sections[j]).start
}

/// Sections that stand where fitting sections stand fit as well.
pub proof fn lemma_fit_by_place(text: Seq<char>, a: Seq<Section>, b: Seq<Section>)
    requires
        a.len() == b.len(),
        forall|k: int|
            0 <= k < b.len() ==> a[k].start == (#[trigger] b[k]).start && a[k].end == b[k].end,
        sections_fit(text, a),
    ensures
        sections_fit(text, b),
{
    assert forall|i: int| 0 <= i < b.len() implies is_span(
        text,
        (#[trigger] b[i]).start as int,
        b[i].end as int,
    ) by {
        assert(is_span(text, a[i].start as int, a[i].end as int));
    }
    assert forall|i: int, j: int| 0 <= i < j < b.len() implies (#[trigger] b[i]).end <= (
    #[trigger] b[j]).start by {
        assert(a[i].end <= a[j].start);
    }
}

/// Counts how often `sub` stands in a keyword.
pub fn level_of(keyword: &Vec<char>) -> (level: usize)
    ensures
        level == keyword_level(keyword@),
{
    let n: usize = keyword.len();
    let mut level: usize = 0;
    let mut i: usize = 0;
    while i < n && n - i >= 3
        invariant
            i <= n == keyword@.len(),
            level <= i,
            level + subs_from(keyword@, i as nat) == keyword_level(keyword@),
        decreases n - i,
    {
        if keyword[i] == 's' && keyword[i + 1] == 'u' && keyword[i + 2] == 'b' {
            level = level + 1;
            i = i + 3;
        } else {
            i = i + 1;
        }
    }
    level
}

/// Reads span `k` out of the groups of a match.
fn group_at(groups: &Vec<GroupSpan>, k: usize) -> (found: GroupSpan)
    ensures
        found == group(groups@, k as int),
{
    if k < groups.len() {
        groups[k]
    } else {
        None
    }
}

impl Section {
    /// Makes the section of one heading from the groups of its match.
    ///
    /// Gives nothing where the groups cannot be read as a heading of `text`.
    pub fn from_capture(text: &str, groups: &Vec<GroupSpan>) -> (made: Option<Section>)
        ensures
            made is Some <==> capture_fits(text@, groups@),
            made matches Some(section) ==> section.heading() == heading_of(text@, groups@)
                && section.is_fresh(),
    {
        let (whole_start, whole_end) = match group_at(groups, 0) {
            Some(span) => span,
            None => {
                return None;
            },
        };
        let (start, keyword_end) = match group_at(groups, 1) {
            Some(span) => span,
            None => {
                return None;
            },
        };
        if !check_span(text, whole_start, whole_end) || !check_span(text, start, keyword_end)
            || start > whole_end {
            return None;
        }
        let name: String = match group_at(groups, 2) {
            Some((from, to)) => {
                if !check_span(text, from, to) {
                    return None;
                }
                slice_span(text, from, to).to_owned()
            },
            None => String::new(),
        };
        let keyword: Vec<char> = to_chars(slice_span(text, start, keyword_end));
        let level: usize = level_of(&keyword);
        Some(
            Section {
                start,
                end: whole_end,
                name,
                chars: 0,
                words: 0,
                lines: 0,
                total_chars: 0,
                total_words: 0,
                total_lines: 0,
                parents: [None, None],
                level,
            },
        )
    }
}

/// Makes the sections of a document from the matches of the search for its
/// headings, one section for each match and in the same order.
///
/// Gives nothing where the matches cannot be read as the headings of `text`.
pub fn sections_from_captures(text: &str, found: &Vec<Vec<GroupSpan>>) -> (made: Option<
    Vec<Section>,
>)
    ensures
        match made {
            Some(sections) => {
                &&& headings_of(text@, found.deep_view()) == Some(headings(sections@))
                &&& sections_fit(text@, sections@)
                &&& forall|i: int| 0 <= i < sections@.len() ==> (#[trigger] sections@[i]).is_fresh()
            },
            None => headings_of(text@, found.deep_view()) is None,
        },
{
    let ghost rows = found.deep_view();
    let mut sections: Vec<Section> = Vec::new();
    let mut k: usize = 0;
    while k < found.len()
        invariant
            k <= found@.len(),
            rows == found.deep_view(),
            rows.len() == found@.len(),
            sections@.len() == k,
            forall|i: int| 0 <= i < k ==> reads_as(text@, #[trigger] rows[i], sections@[i]),
            forall|i: int, j: int|
                0 <= i < j < k ==> (#[trigger] sections@[i]).end <= (#[trigger] sections@[j]).start,
        decreases found@.len() - k,
    {
        assert(rows[k as int] == found@[k as int]@);
        let section: Section = match Section::from_capture(text, &found[k]) {
            Some(section) => section,
            None => {
                return None;
            },
        };
        if k > 0 && sections[k - 1].end > section.start {
            proof {
                assert(reads_as(text@, rows[k - 1], sections@[k - 1]));
                assert(heading_of(text@, rows[k - 1]).end > heading_of(
                    text@,
                    rows[k as int],
                ).start);
            }
            return None;
        }
        proof {
            assert forall|i: int| 0 <= i < k implies (#[trigger] sections@[i]).end
                <= section.start by {
                assert(reads_as(text@, rows[i], sections@[i]));
                if i + 1 < k {
                    assert(reads_as(text@, rows[k - 1], sections@[k - 1]));
                    assert(sections@[i].end <= sections@[k - 1].start);
                }
            }
        }
        sections.push(section);
        k = k + 1;
    }
    proof {
        assert forall|i: int| 0 <= i < rows.len() implies capture_fits(
            text@,
            #[trigger] rows[i],
        ) by {
            assert(reads_as(text@, rows[i], sections@[i]));
        }
        assert forall|i: int, j: int| 0 <= i < j < rows.len() implies heading_of(
            text@,
            #[trigger] rows[i],
        ).end <= heading_of(text@, #[trigger] rows[j]).start by {
            assert(reads_as(text@, rows[i], sections@[i]));
            assert(reads_as(text@, rows[j], sections@[j]));
            assert(sections@[i].end <= sections@[j].start);
        }
        assert(captures_fit(text@, rows));
        assert forall|i: int| 0 <= i < rows.len() implies heading_of(text@, rows[i])
            == #[trigger] headings(sections@)[i] by {
            assert(reads_as(text@, rows[i], sections@[i]));
        }
        assert(headings_of(text@, rows).unwrap() =~= headings(sections@));
        assert forall|i: int| 0 <= i < sections@.len() implies is_span(
            text@,
            (#[trigger] sections@[i]).start as int,
            sections@[i].end as int,
        ) && sections@[i].is_fresh() by {
            assert(reads_as(text@, rows[i], sections@[i]));
        }
    }
    Some(sections)
}

/// The section is what the groups of a match are read as.
spec fn reads_as(text: Seq<char>, groups: Seq<GroupSpan>, section: Section) -> bool {
    &&& capture_fits(text, groups)
    &&& section.heading() == heading_of(text, groups)
    &&& section.is_fresh()
}

/// Finds the headings of a document, in the order in which they stand in it.
///
/// Gives nothing where the search fails or its matches cannot be read as
/// headings of `text`.
pub fn scan_headings(text: &str) -> (found: Option<Vec<Section>>)
    ensures
        match found {
            Some(sections) => {
                &&& headings_in(text@) == Some(headings(sections@))
                &&& sections_fit(text@, sections@)
                &&& forall|i: int| 0 <= i < sections@.len() ==> (#[trigger] sections@[i]).is_fresh()
            },
            None => headings_in(text@) is None,
        },
{
    match find_captures(HEADING_PATTERN, true, text) {
        Some(found) => sections_from_captures(text, &found),
        None => None,
    }
}

} // verus!
