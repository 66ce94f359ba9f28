//! The whole analysis of a document: its headings, their nesting, the
//! counts of every section and of the document.

use crate::aggregate::{aggregate, aggregated, is_total, lemma_resolved_is_sound, same_but_totals};
use crate::hierarchy::{
    figure_out_parents, lemma_resolved_kept, parents_resolved, same_but_parents,
};
use crate::measure::{lemma_measured_kept, measure_spans, measured, own_sum, same_but_counts};
use crate::render::render_spec;
use crate::scan::{headings, headings_in, lemma_fit_by_place, scan_headings, sections_fit};
use crate::section::Section;
use vstd::prelude::*;
use vstd::string::StringExecFns;

verus! {

/// The sections of a document, in the order of their headings, and the
/// section that stands for the document as a whole.
#[derive(Debug)]
pub struct Report {
    pub sections: Vec<Section>,
    pub total: Section,
}

/// The sections and the total are those of the document `text`: the
/// sections are its headings, each holds its nearest enclosing sections, the
/// counts of its own text and the total counts that belong in it, and the
/// total holds the sum of all own counts.
pub open spec fn describes(text: Seq<char>, sections: Seq<Section>, total: Section) -> bool {
    &&& headings_in(text) == Some(headings(sections))
    &&& sections_fit(text, sections)
    &&& parents_resolved(sections)
    &&& measured(text, sections)
    &&& aggregated(sections)
    &&& is_total(total, own_sum(sections, sections.len() as int))
}

/// The texts that show the first `n` sections, each followed by an empty
/// line.
pub open spec fn listing(sections: Seq<Section>, n: int) -> Seq<char>
    decreases n,
{
    if n <= 0 {
        Seq::empty()
    } else {
        listing(sections, n - 1) + render_spec(sections[n - 1]) + "\n"@
    }
}

/// The text that shows a report: the sections, an empty line, the total.
pub open spec fn report_text(sections: Seq<Section>, total: Section) -> Seq<char> {
    listing(sections, sections.len() as int) + "\n"@ + render_spec(total) + "\n"@
}

impl Report {
    /// The report is that of the document `text`.
    pub open spec fn is_of(&self, text: Seq<char>) -> bool {
        describes(text, self.sections@, self.total)
    }

    /// The text that shows the report.
    pub open spec fn text(&self) -> Seq<char> {
        report_text(self.sections@, self.total)
    }

    /// The text that shows the report: every section in the order of the
    /// headings, then the total.
    pub fn render(&self) -> (shown: String)
        ensures
            shown@ == self.text(),
    {
        let mut shown: String = String::new();
        let n: usize = self.sections.len();
        let mut i: usize = 0;
        proof {
            assert(shown@ =~= listing(self.sections@, 0));
        }
        while i < n
            invariant
                i <= n == self.sections@.len(),
                shown@ == listing(self.sections@, i as int),
            decreases n - i,
        {
            self.sections[i].render_into(&mut shown);
            shown.append("\n");
            i = i + 1;
        }
        shown.append("\n");
        self.total.render_into(&mut shown);
        shown.append("\n");
        shown
    }
}

/// Analyzes a document: finds its headings, works out how they are nested,
/// counts the text of every section and adds the counts up.
///
/// Gives nothing where the search for the headings fails.
pub fn analyze(text: &str) -> (report: Option<Report>)
    ensures
        report is Some <==> headings_in(text@) is Some,
        report matches Some(found) ==> found.is_of(text@),
{
    let mut sections: Vec<Section> = match scan_headings(text) {
        Some(sections) => sections,
        None => {
            return None;
        },
    };
    let ghost scanned = sections@;
    figure_out_parents(&mut sections);
    let ghost nested = sections@;
    proof {
        lemma_fit_by_place(text@, scanned, nested);
    }
    measure_spans(text, &mut sections);
    let ghost counted = sections@;
    proof {
        lemma_resolved_kept(nested, counted);
        lemma_resolved_is_sound(counted);
    }
    let total: Section = aggregate(&mut sections);
    proof {
        let done = sections@;
        lemma_resolved_kept(counted, done);
        lemma_fit_by_place(text@, counted, done);
        lemma_measured_kept(text@, counted, done);
        assert forall|i: int| 0 <= i < done.len() implies (#[trigger] headings(done)[i])
            == headings(scanned)[i] by {
            assert(same_but_parents(scanned[i], nested[i]));
            assert(same_but_counts(nested[i], counted[i]));
            assert(same_but_totals(counted[i], done[i]));
        }
        assert(headings(done) =~= headings(scanned));
    }
    Some(Report { sections, total })
}

} // verus!
