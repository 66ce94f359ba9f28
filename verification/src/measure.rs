//! Counting the own text of every section.
//!
//! The text of a section begins where its heading ends and reaches to the
//! keyword of the next heading, or to the end of the document. The texts of
//! the sections therefore lie side by side and never overlap, however the
//! sections are nested.

use crate::count::{lemma_span_tally_bounded, span_tally, tally_text, Counts};
use crate::scan::{lemma_fit_by_place, sections_fit};
use crate::section::{Section, Tally};
use crate::text::{
    byte_len, is_cut, is_span, lemma_span_length, slice_span, span_chars, text_len, to_chars,
};
use vstd::prelude::*;

verus! {

/// The byte offset at which the text of section `i` ends.
pub open spec fn span_end(text: Seq<char>, sections: Seq<Section>, i: int) -> int {
    if i + 1 < sections.len() {
        sections[i + 1].start as int
    } else {
        byte_len(text) as int
    }
}

/// The own text of section `i`.
pub open spec fn own_text(text: Seq<char>, sections: Seq<Section>, i: int) -> Seq<char> {
    span_chars(text, sections[i].end as int, span_end(text, sections, i))
}

/// Every section holds the counts of its own text.
pub open spec fn measured(text: Seq<char>, sections: Seq<Section>) -> bool {
    forall|i: int|
        0 <= i < sections.len() ==> (#[trigger] sections[i]).own() == span_tally(
            own_text(text, sections, i),
        )
}

/// The sum of the own counts of the first `n` sections.
pub open spec fn own_sum(sections: Seq<Section>, n: int) -> Tally
    decreases n,
{
    if n <= 0 {
        Tally::zero()
    } else {
        own_sum(sections, n - 1).plus(sections[n - 1].own())
    }
}

/// The section `after` is the section `before` with other counts.
pub open spec fn same_but_counts(before: Section, after: Section) -> bool {
    after == (Section {
        chars: after.chars,
        words: after.words,
        lines: after.lines,
        total_chars: after.total_chars,
        total_words: after.total_words,
        total_lines: after.total_lines,
        ..before
    })
}

/// Counts the own text of every section and stores the counts in it, as its
/// own counts and, until its descendants are added, as its total counts.
pub fn measure_spans(text: &str, sections: &mut Vec<Section>)
    requires
        sections_fit(text@, old(sections)@),
    ensures
        final(sections)@.len() == old(sections)@.len(),
        forall|i: int|
            0 <= i < old(sections)@.len() ==> same_but_counts(
                old(sections)@[i],
                #[trigger] final(sections)@[i],
            ),
        forall|i: int|
            0 <= i < final(sections)@.len() ==> (#[trigger] final(sections)@[i]).total()
                == final(sections)@[i].own(),
        sections_fit(text@, final(sections)@),
        measured(text@, final(sections)@),
        own_sum(final(sections)@, final(sections)@.len() as int).fits(),
{
    let n: usize = sections.len();
    let len: usize = text_len(text);
    let mut i: usize = 0;
    while i < n
        invariant
            i <= n,
            sections@.len() == n,
            old(sections)@.len() == n,
            len == byte_len(text@),
            is_cut(text@, len as int),
            sections_fit(text@, old(sections)@),
            forall|k: int|
                0 <= k < n ==> same_but_counts(#[trigger] old(sections)@[k], sections@[k]),
            forall|k: int|
                0 <= k < i ==> (#[trigger] sections@[k]).total() == sections@[k].own()
                    && sections@[k].own() == span_tally(own_text(text@, old(sections)@, k)),
        decreases n - i,
    {
        let from: usize = sections[i].end;
        let to: usize = if i + 1 < n {
            sections[i + 1].start
        } else {
            len
        };
        proof {
            assert(same_but_counts(old(sections)@[i as int], sections@[i as int]));
            assert(is_span(
                text@,
                old(sections)@[i as int].start as int,
                old(sections)@[i as int].end as int,
            ));
            if i + 1 < n {
                assert(same_but_counts(old(sections)@[i + 1], sections@[i + 1]));
                assert(is_span(
                    text@,
                    old(sections)@[i + 1].start as int,
                    old(sections)@[i + 1].end as int,
                ));
                assert(old(sections)@[i as int].end <= old(sections)@[i + 1].start);
            }
            assert(to == span_end(text@, old(sections)@, i as int));
        }
        let body: Vec<char> = to_chars(slice_span(text, from, to));
        let found: Counts = tally_text(&body);
        sections[i].chars = found.chars;
        sections[i].words = found.words;
        sections[i].lines = found.lines;
        sections[i].total_chars = found.chars;
        sections[i].total_words = found.words;
        sections[i].total_lines = found.lines;
        i = i + 1;
    }
    proof {
        assert forall|k: int| 0 <= k < n implies (#[trigger] sections@[k]).own() == span_tally(
            own_text(text@, sections@, k),
        ) by {
            assert(same_but_counts(old(sections)@[k], sections@[k]));
            if k + 1 < n {
                assert(same_but_counts(old(sections)@[k + 1], sections@[k + 1]));
            }
        }
        assert forall|k: int| 0 <= k < n implies old(sections)@[k].start == (
        #[trigger] sections@[k]).start && old(sections)@[k].end == sections@[k].end by {
            assert(same_but_counts(old(sections)@[k], sections@[k]));
        }
        lemma_fit_by_place(text@, old(sections)@, sections@);
        lemma_own_sum_bounded(text@, sections@, n as int);
    }
}

/// Sections that hold the counts of their own text still do so after a
/// change that leaves their places and their own counts alone.
pub proof fn lemma_measured_kept(text: Seq<char>, a: Seq<Section>, b: Seq<Section>)
    requires
        a.len() == b.len(),
        forall|k: int|
            0 <= k < b.len() ==> a[k].start == (#[trigger] b[k]).start && a[k].end == b[k].end
                && a[k].own() == b[k].own(),
        measured(text, a),
    ensures
        measured(text, b),
{
    assert forall|i: int| 0 <= i < b.len() implies (#[trigger] b[i]).own() == span_tally(
        own_text(text, b, i),
    ) by {
        assert(a[i].own() == span_tally(own_text(text, a, i)));
        if i + 1 < b.len() {
            assert(a[i + 1].start == b[i + 1].start);
        }
    }
}

/// The own counts of sections that lie side by side in a document sum up
/// to no more than the document has bytes.
pub proof fn lemma_own_sum_bounded(text: Seq<char>, sections: Seq<Section>, n: int)
    requires
        sections_fit(text, sections),
        measured(text, sections),
        0 <= n <= sections.len(),
    ensures
        own_sum(sections, n).natural(),
        n > 0 ==> own_sum(sections, n).chars <= span_end(text, sections, n - 1),
        n > 0 ==> own_sum(sections, n).words <= span_end(text, sections, n - 1),
        n > 0 ==> own_sum(sections, n).lines <= span_end(text, sections, n - 1),
        n > 0 ==> span_end(text, sections, n - 1) <= byte_len(text),
    decreases n,
{
    if n > 0 {
        lemma_own_sum_bounded(text, sections, n - 1);
        let i = n - 1;
        let from = sections[i].end as int;
        let to = span_end(text, sections, i);
        assert(is_span(text, sections[i].start as int, from));
        if i + 1 < sections.len() {
            assert(is_span(text, sections[i + 1].start as int, sections[i + 1].end as int));
        } else {
            vstd::utf8::encode_utf8_valid_utf8(text);
            vstd::utf8::is_char_boundary_start_end_of_seq(vstd::utf8::encode_utf8(text));
        }
        assert(is_span(text, from, to));
        lemma_span_length(text, from, to);
        lemma_span_tally_bounded(own_text(text, sections, i));
        if i > 0 {
            assert(span_end(text, sections, i - 1) == sections[i].start);
        }
    }
}

} // verus!
