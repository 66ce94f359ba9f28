//! What holds of every analysis: how the counts of the sections add up, that
//! a document has one report only, and what a line without content adds.

use crate::aggregate::{
    aggregated, lemma_own_sum_agrees, lemma_rolled_up_agrees, rolled_up, share, total_of,
};
use crate::count::{
    chomp, lemma_comment_is_first, lemma_newline_from, lemma_newline_is_first, line_tally,
    newline_from, span_tally, strip_comment, tally_of_lines, text_lines,
};
use crate::hierarchy::{
    is_nearest_at, lemma_levels_decide, lemma_nearest_is_unique, parents_resolved, slot_resolved,
};
use crate::measure::{own_sum, own_text};
use crate::report::{describes, listing, report_text};
use crate::scan::headings;
use crate::section::{Section, Tally};
use vstd::prelude::*;

verus! {

/// The sum of the total counts of the sections at level 0 among the first
/// `n` sections.
pub open spec fn top_level_sum(sections: Seq<Section>, n: int) -> Tally
    decreases n,
{
    if n <= 0 {
        Tally::zero()
    } else {
        top_level_sum(sections, n - 1).plus(
            if sections[n - 1].level == 0 {
                sections[n - 1].total()
            } else {
                Tally::zero()
            },
        )
    }
}

/// What section `i` has gathered once the first `n` sections are counted.
spec fn gathered(sections: Seq<Section>, i: int, n: int) -> Tally {
    (if i < n {
        sections[i].own()
    } else {
        Tally::zero()
    }).plus(rolled_up(sections, i, n))
}

/// What the sections at level 0 among the first `m` have gathered once the
/// first `n` sections are counted.
spec fn top_gathered(sections: Seq<Section>, m: int, n: int) -> Tally
    decreases m,
{
    if m <= 0 {
        Tally::zero()
    } else {
        top_gathered(sections, m - 1, n).plus(
            if sections[m - 1].level == 0 {
                gathered(sections, m - 1, n)
            } else {
                Tally::zero()
            },
        )
    }
}

/// The index of the last section at level 0 among the first `n`, or -1.
spec fn last_top(sections: Seq<Section>, n: int) -> int
    decreases n,
{
    if n <= 0 {
        -1
    } else if sections[n - 1].level == 0 {
        n - 1
    } else {
        last_top(sections, n - 1)
    }
}

proof fn lemma_last_top(sections: Seq<Section>, n: int)
    requires
        0 < n <= sections.len(),
        sections[0].level == 0,
    ensures
        0 <= last_top(sections, n) < n,
        sections[last_top(sections, n)].level == 0,
        forall|k: int| last_top(sections, n) < k < n ==> (#[trigger] sections[k]).level != 0,
    decreases n,
{
    if sections[n - 1].level != 0 {
        lemma_last_top(sections, n - 1);
    }
}

/// The section at level 0 that gathers the counts of section `n`: the
/// section itself where it is at level 0, else its ancestor at level 0.
spec fn gatherer(sections: Seq<Section>, n: int) -> int {
    if sections[n].level == 0 {
        n
    } else {
        last_top(sections, n)
    }
}

proof fn lemma_gatherer(sections: Seq<Section>, n: int)
    requires
        parents_resolved(sections),
        0 <= n < sections.len(),
        sections[0].level == 0,
    ensures
        0 <= gatherer(sections, n) <= n,
        sections[gatherer(sections, n)].level == 0,
        forall|i: int|
            0 <= i < sections.len() && sections[i].level == 0 ==> #[trigger] gathered(
                sections,
                i,
                n + 1,
            ) == gathered(sections, i, n).plus(
                if i == gatherer(sections, n) {
                    sections[n].own()
                } else {
                    Tally::zero()
                },
            ),
{
    let table = sections[n].parents;
    assert(slot_resolved(sections, n, 0, table[0]));
    assert(slot_resolved(sections, n, 1, table[1]));
    if sections[n].level == 0 {
        assert(table[0] is None);
        assert(table[1] is None);
    } else {
        lemma_last_top(sections, n);
        let top = last_top(sections, n);
        assert(is_nearest_at(sections, n, 0, top));
        assert(table[0] is Some);
        let found = table[0].unwrap() as int;
        if found < top {
            assert(sections[top].level == 0);
        } else if top < found {
            assert(sections[found].level == 0);
        }
        assert(found == top);
    }
    assert forall|i: int|
        0 <= i < sections.len() && sections[i].level == 0 implies #[trigger] gathered(
        sections,
        i,
        n + 1,
    ) == gathered(sections, i, n).plus(
        if i == gatherer(sections, n) {
            sections[n].own()
        } else {
            Tally::zero()
        },
    ) by {
        assert(rolled_up(sections, i, n + 1) == rolled_up(sections, i, n).plus(
            share(sections, i, n),
        ));
        if table[1] is Some {
            assert(sections[table[1].unwrap() as int].level == 1);
        }
    }
}

proof fn lemma_top_gathered_step(sections: Seq<Section>, m: int, n: int)
    requires
        parents_resolved(sections),
        0 <= n < sections.len(),
        0 <= m <= sections.len(),
        sections[0].level == 0,
    ensures
        top_gathered(sections, m, n + 1) == top_gathered(sections, m, n).plus(
            if gatherer(sections, n) < m {
                sections[n].own()
            } else {
                Tally::zero()
            },
        ),
    decreases m,
{
    lemma_gatherer(sections, n);
    if m > 0 {
        lemma_top_gathered_step(sections, m - 1, n);
        if sections[m - 1].level == 0 {
            assert(gathered(sections, m - 1, n + 1) == gathered(sections, m - 1, n).plus(
                if m - 1 == gatherer(sections, n) {
                    sections[n].own()
                } else {
                    Tally::zero()
                },
            ));
        }
    }
}

proof fn lemma_top_gathered_nothing(sections: Seq<Section>, m: int)
    ensures
        top_gathered(sections, m, 0) == Tally::zero(),
    decreases m,
{
    if m > 0 {
        lemma_top_gathered_nothing(sections, m - 1);
    }
}

proof fn lemma_top_gathered_all(sections: Seq<Section>, n: int)
    requires
        parents_resolved(sections),
        0 <= n <= sections.len(),
        sections.len() > 0 ==> sections[0].level == 0,
    ensures
        top_gathered(sections, sections.len() as int, n) == own_sum(sections, n),
    decreases n,
{
    if n > 0 {
        lemma_top_gathered_all(sections, n - 1);
        lemma_top_gathered_step(sections, sections.len() as int, n - 1);
        lemma_gatherer(sections, n - 1);
    } else {
        lemma_top_gathered_nothing(sections, sections.len() as int);
    }
}

proof fn lemma_top_level_sum_is_gathered(sections: Seq<Section>, m: int)
    requires
        aggregated(sections),
        0 <= m <= sections.len(),
    ensures
        top_level_sum(sections, m) == top_gathered(sections, m, sections.len() as int),
    decreases m,
{
    if m > 0 {
        lemma_top_level_sum_is_gathered(sections, m - 1);
        assert(sections[m - 1].total() == total_of(sections, m - 1));
    }
}

/// Where a document begins with a heading at level 0, or has no heading,
/// the total counts of its sections at level 0 add up to the sum of the own
/// counts of all its sections, which is what the total of the document
/// holds.
pub proof fn lemma_top_level_totals(sections: Seq<Section>)
    requires
        parents_resolved(sections),
        aggregated(sections),
        sections.len() > 0 ==> sections[0].level == 0,
    ensures
        top_level_sum(sections, sections.len() as int) == own_sum(
            sections,
            sections.len() as int,
        ),
{
    lemma_top_level_sum_is_gathered(sections, sections.len() as int);
    lemma_top_gathered_all(sections, sections.len() as int);
}

/// The total of a document is the sum of the own counts of its sections, and
/// where the document begins with a heading at level 0, or has no heading,
/// it is the sum of the total counts of its sections at level 0 as well.
pub proof fn lemma_total_of_document(text: Seq<char>, sections: Seq<Section>, total: Section)
    requires
        describes(text, sections, total),
    ensures
        total.own() == own_sum(sections, sections.len() as int),
        total.total() == total.own(),
        sections.len() == 0 || sections[0].level == 0 ==> total.total() == top_level_sum(
            sections,
            sections.len() as int,
        ),
{
    if sections.len() == 0 || sections[0].level == 0 {
        lemma_top_level_totals(sections);
    }
}

/// The sections that add to the total of a section are those whose nearest
/// enclosing section, at level 0 or at level 1, it is.
pub proof fn lemma_parent_is_nearest(sections: Seq<Section>, j: int, p: int)
    requires
        parents_resolved(sections),
        0 <= j < sections.len(),
    ensures
        sections[j].has_parent(p) <==> is_nearest_at(sections, j, 0, p) || is_nearest_at(
            sections,
            j,
            1,
            p,
        ),
{
    let table = sections[j].parents;
    assert(slot_resolved(sections, j, 0, table[0]));
    assert(slot_resolved(sections, j, 1, table[1]));
    if is_nearest_at(sections, j, 0, p) {
        lemma_nearest_is_unique(sections, j, 0, table[0], Some(p as usize));
    }
    if is_nearest_at(sections, j, 1, p) {
        lemma_nearest_is_unique(sections, j, 1, table[1], Some(p as usize));
    }
}

/// Two sections show the same heading, counts and ancestors.
pub open spec fn same_content(a: Section, b: Section) -> bool {
    &&& a.heading() == b.heading()
    &&& a.own() == b.own()
    &&& a.total() == b.total()
    &&& a.parents[0] == b.parents[0]
    &&& a.parents[1] == b.parents[1]
}

proof fn lemma_listing_agrees(a: Seq<Section>, b: Seq<Section>, n: int)
    requires
        n <= a.len() == b.len(),
        forall|k: int| 0 <= k < a.len() ==> same_content(#[trigger] a[k], b[k]),
    ensures
        listing(a, n) == listing(b, n),
    decreases n,
{
    if n > 0 {
        lemma_listing_agrees(a, b, n - 1);
        assert(same_content(a[n - 1], b[n - 1]));
    }
}

/// A document has one report: whatever two analyses of the same document
/// give, the sections agree one by one, the totals agree, and the texts that
/// show the two reports are the same.
pub proof fn lemma_one_report(
    text: Seq<char>,
    a: Seq<Section>,
    a_total: Section,
    b: Seq<Section>,
    b_total: Section,
)
    requires
        describes(text, a, a_total),
        describes(text, b, b_total),
    ensures
        a.len() == b.len(),
        forall|k: int| 0 <= k < a.len() ==> same_content(#[trigger] a[k], b[k]),
        same_content(a_total, b_total),
        report_text(a, a_total) == report_text(b, b_total),
{
    assert(headings(a) == headings(b));
    assert(a.len() == headings(a).len());
    assert(b.len() == headings(b).len());
    assert forall|k: int| 0 <= k < a.len() implies (#[trigger] a[k]).heading()
        == b[k].heading() by {
        assert(headings(a)[k] == headings(b)[k]);
    }
    assert forall|k: int| 0 <= k < a.len() implies (#[trigger] a[k]).level == b[k].level by {
        assert(a[k].heading() == b[k].heading());
    }
    assert forall|k: int| 0 <= k < a.len() implies (#[trigger] a[k]).parents[0] == b[k].parents[0]
        && a[k].parents[1] == b[k].parents[1] by {
        assert(slot_resolved(a, k, 0, a[k].parents[0]));
        assert(slot_resolved(a, k, 1, a[k].parents[1]));
        assert(slot_resolved(b, k, 0, b[k].parents[0]));
        assert(slot_resolved(b, k, 1, b[k].parents[1]));
        lemma_levels_decide(a, b, k, 0, a[k].parents[0]);
        lemma_levels_decide(a, b, k, 1, a[k].parents[1]);
        lemma_nearest_is_unique(b, k, 0, a[k].parents[0], b[k].parents[0]);
        lemma_nearest_is_unique(b, k, 1, a[k].parents[1], b[k].parents[1]);
    }
    assert forall|k: int| 0 <= k < a.len() implies (#[trigger] a[k]).own() == b[k].own() by {
        assert(a[k].heading() == b[k].heading());
        if k + 1 < a.len() {
            assert(a[k + 1].heading() == b[k + 1].heading());
        }
        assert(own_text(text, a, k) == own_text(text, b, k));
        assert(b[k].own() == span_tally(own_text(text, b, k)));
    }
    assert forall|k: int| 0 <= k < a.len() implies same_content(#[trigger] a[k], b[k]) by {
        lemma_rolled_up_agrees(a, b, k, a.len() as int);
        assert(a[k].own() == b[k].own());
        assert(a[k].total() == total_of(a, k));
        assert(b[k].total() == total_of(b, k));
    }
    lemma_own_sum_agrees(a, b, a.len() as int);
    lemma_listing_agrees(a, b, a.len() as int);
}

/// The lines of a text that is cut behind a line feed are the lines before
/// the cut and the lines behind it.
pub proof fn lemma_lines_split(head: Seq<char>, tail: Seq<char>)
    requires
        head.len() == 0 || head.last() == '\n',
    ensures
        text_lines(head + tail) == text_lines(head) + text_lines(tail),
    decreases head.len(),
{
    if head.len() == 0 {
        assert(head + tail =~= tail);
        assert(text_lines(head) + text_lines(tail) =~= text_lines(tail));
    } else {
        let whole = head + tail;
        lemma_newline_is_first(head, 0);
        let end = newline_from(head, 0);
        assert(end < head.len());
        assert forall|k: int| 0 <= k < end implies whole[k] != '\n' by {
            assert(whole[k] == head[k]);
        }
        assert(whole[end as int] == head[end as int]);
        lemma_newline_from(whole, 0, end);
        assert(whole.take(end as int) =~= head.take(end as int));
        let rest = head.skip(end as int + 1);
        assert(whole.skip(end as int + 1) =~= rest + tail);
        if rest.len() > 0 {
            assert(rest.last() == head.last());
        }
        lemma_lines_split(rest, tail);
        assert(text_lines(whole) =~= text_lines(head) + text_lines(tail));
    }
}

/// The counts of lines add up over a list of lines that is cut in two.
pub proof fn lemma_tally_of_lines_adds(a: Seq<Seq<char>>, b: Seq<Seq<char>>)
    ensures
        tally_of_lines(a + b) == tally_of_lines(a).plus(tally_of_lines(b)),
    decreases a.len(),
{
    if a.len() == 0 {
        assert(a + b =~= b);
    } else {
        lemma_tally_of_lines_adds(a.drop_first(), b);
        assert((a + b).drop_first() =~= a.drop_first() + b);
    }
}

/// What one line adds to the counts of the text around it: the counts of a
/// text are those of what stands before the line, of the line itself and of
/// what stands behind it.
pub proof fn lemma_line_in_text(head: Seq<char>, line: Seq<char>, tail: Seq<char>)
    requires
        head.len() == 0 || head.last() == '\n',
        forall|k: int| 0 <= k < line.len() ==> line[k] != '\n',
    ensures
        span_tally(head + line + seq!['\n'] + tail) == span_tally(head).plus(
            line_tally(chomp(line)),
        ).plus(span_tally(tail)),
{
    let closed = line + seq!['\n'];
    let behind = closed + tail;
    assert(head + line + seq!['\n'] + tail =~= head + behind);
    lemma_lines_split(head, behind);
    lemma_lines_split(closed, tail);
    lemma_newline_from(closed, 0, line.len());
    assert(closed.take(line.len() as int) =~= line);
    let nothing = closed.skip(line.len() as int + 1);
    assert(nothing =~= Seq::<char>::empty());
    assert(text_lines(nothing) =~= Seq::<Seq<char>>::empty());
    assert(text_lines(closed) =~= seq![chomp(line)]);
    assert(text_lines(closed).drop_first() =~= Seq::<Seq<char>>::empty());
    assert(tally_of_lines(text_lines(closed).drop_first()) == Tally::zero());
    assert(text_lines(closed)[0] == chomp(line));
    assert(tally_of_lines(text_lines(closed)) == line_tally(chomp(line)));
    lemma_tally_of_lines_adds(text_lines(closed), text_lines(tail));
    lemma_tally_of_lines_adds(text_lines(head), text_lines(behind));
}

/// A line is without content: it is empty, it is a comment from its first
/// character on, only `$$` stands before its comment, or it begins with a
/// backslash.
pub open spec fn without_content(line: Seq<char>) -> bool {
    ||| line.len() == 0
    ||| line[0] == '%'
    ||| line[0] == '\\'
    ||| strip_comment(line) =~= seq!['$', '$']
}

/// A line without content adds nothing to any count.
pub proof fn lemma_line_without_content(line: Seq<char>)
    requires
        without_content(line),
    ensures
        line_tally(line) == Tally::zero(),
{
    if line.len() > 0 && line[0] != '%' {
        lemma_comment_is_first(line, 1);
    }
}

/// A line without content can be taken out of a text, with its line feed,
/// and the counts of the text stay what they are.
pub proof fn lemma_line_without_content_in_text(
    head: Seq<char>,
    line: Seq<char>,
    tail: Seq<char>,
)
    requires
        head.len() == 0 || head.last() == '\n',
        forall|k: int| 0 <= k < line.len() ==> line[k] != '\n',
        without_content(chomp(line)),
    ensures
        span_tally(head + line + seq!['\n'] + tail) == span_tally(head + tail),
{
    lemma_line_in_text(head, line, tail);
    lemma_line_without_content(chomp(line));
    lemma_lines_split(head, tail);
    lemma_tally_of_lines_adds(text_lines(head), text_lines(tail));
}

} // verus!
