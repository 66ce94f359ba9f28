//! Rolling the counts of every section up into its enclosing sections and
//! into the total of the document.

use crate::hierarchy::{parents_resolved, slot_resolved};
use crate::measure::own_sum;
use crate::section::{Section, Tally};
use vstd::prelude::*;
use vstd::string::StringExecFns;

verus! {

/// The ancestors that the sections hold stand before them, and no section
/// holds the same ancestor twice.
pub open spec fn tables_sound(sections: Seq<Section>) -> bool {
    forall|j: int|
        0 <= j < sections.len() ==> {
            let table = (#[trigger] sections[j]).parents;
            &&& (table[0] matches Some(p) ==> p < j)
            &&& (table[1] matches Some(p) ==> p < j)
            &&& (table[0] is Some ==> table[0] != table[1])
        }
}

/// What section `j` adds to the total of section `p`: its own counts where
/// `p` is one of its ancestors, nothing where it is not.
pub open spec fn share(sections: Seq<Section>, p: int, j: int) -> Tally {
    if sections[j].has_parent(p) {
        sections[j].own()
    } else {
        Tally::zero()
    }
}

/// What the first `n` sections add to the total of section `p`.
pub open spec fn rolled_up(sections: Seq<Section>, p: int, n: int) -> Tally
    decreases n,
{
    if n <= 0 {
        Tally::zero()
    } else {
        rolled_up(sections, p, n - 1).plus(share(sections, p, n - 1))
    }
}

/// The total counts that belong in section `p`: its own counts and those of
/// every section that holds it as an ancestor.
pub open spec fn total_of(sections: Seq<Section>, p: int) -> Tally {
    sections[p].own().plus(rolled_up(sections, p, sections.len() as int))
}

/// Every section holds the total counts that belong in it.
pub open spec fn aggregated(sections: Seq<Section>) -> bool {
    forall|p: int|
        0 <= p < sections.len() ==> (#[trigger] sections[p]).total() == total_of(sections, p)
}

/// The section `after` is the section `before` with other total counts.
pub open spec fn same_but_totals(before: Section, after: Section) -> bool {
    after == (Section {
        total_chars: after.total_chars,
        total_words: after.total_words,
        total_lines: after.total_lines,
        ..before
    })
}

/// The section that stands for the whole document holds `sum` as its own
/// and as its total counts.
pub open spec fn is_total(total: Section, sum: Tally) -> bool {
    &&& total.name@ == "Total"@
    &&& total.own() == sum
    &&& total.total() == sum
    &&& total.level == 0
    &&& total.start == 0
    &&& total.end == 0
    &&& total.parents[0] is None
    &&& total.parents[1] is None
}

/// Sections that hold their nearest enclosing sections hold sound tables.
pub proof fn lemma_resolved_is_sound(sections: Seq<Section>)
    requires
        parents_resolved(sections),
    ensures
        tables_sound(sections),
{
    assert forall|j: int| 0 <= j < sections.len() implies {
        let table = (#[trigger] sections[j]).parents;
        &&& (table[0] matches Some(p) ==> p < j)
        &&& (table[1] matches Some(p) ==> p < j)
        &&& (table[0] is Some ==> table[0] != table[1])
    } by {
        let table = sections[j].parents;
        assert(slot_resolved(sections, j, 0, table[0]));
        assert(slot_resolved(sections, j, 1, table[1]));
    }
}

/// The sum of the own counts grows with the number of sections.
pub proof fn lemma_own_sum_grows(sections: Seq<Section>, m: int, n: int)
    requires
        0 <= m <= n,
    ensures
        own_sum(sections, m).natural(),
        own_sum(sections, m).within(own_sum(sections, n)),
    decreases n,
{
    if m < n {
        lemma_own_sum_grows(sections, m, n - 1);
    } else {
        lemma_own_sum_natural(sections, m);
    }
}

proof fn lemma_own_sum_natural(sections: Seq<Section>, n: int)
    ensures
        own_sum(sections, n).natural(),
    decreases n,
{
    if n > 0 {
        lemma_own_sum_natural(sections, n - 1);
    }
}

/// What a section and those that hold it as an ancestor count, among the
/// first `n` sections, is part of what these sections count together.
pub proof fn lemma_rolled_up_bounded(sections: Seq<Section>, p: int, n: int)
    requires
        tables_sound(sections),
        0 <= p < n <= sections.len(),
    ensures
        rolled_up(sections, p, n).natural(),
        sections[p].own().plus(rolled_up(sections, p, n)).within(own_sum(sections, n)),
    decreases n,
{
    if n - 1 > p {
        lemma_rolled_up_bounded(sections, p, n - 1);
    } else {
        lemma_nothing_rolled_up_yet(sections, p, p + 1);
        lemma_own_sum_natural(sections, p);
    }
}

/// No section at or before `p` adds to the total of `p`.
proof fn lemma_nothing_rolled_up_yet(sections: Seq<Section>, p: int, n: int)
    requires
        tables_sound(sections),
        0 <= n <= p + 1 <= sections.len(),
    ensures
        rolled_up(sections, p, n) == Tally::zero(),
    decreases n,
{
    if n > 0 {
        lemma_nothing_rolled_up_yet(sections, p, n - 1);
        assert(!sections[n - 1].has_parent(p));
    }
}

/// What is rolled up depends on the own counts and the ancestors alone.
pub proof fn lemma_rolled_up_agrees(a: Seq<Section>, b: Seq<Section>, p: int, n: int)
    requires
        n <= a.len() == b.len(),
        forall|k: int|
            0 <= k < b.len() ==> a[k].own() == (#[trigger] b[k]).own() && a[k].parents[0]
                == b[k].parents[0] && a[k].parents[1] == b[k].parents[1],
    ensures
        rolled_up(a, p, n) == rolled_up(b, p, n),
    decreases n,
{
    if n > 0 {
        lemma_rolled_up_agrees(a, b, p, n - 1);
        assert(a[n - 1].own() == b[n - 1].own());
    }
}

/// The sum of the own counts depends on the own counts alone.
pub proof fn lemma_own_sum_agrees(a: Seq<Section>, b: Seq<Section>, n: int)
    requires
        n <= a.len() == b.len(),
        forall|k: int| 0 <= k < b.len() ==> a[k].own() == (#[trigger] b[k]).own(),
    ensures
        own_sum(a, n) == own_sum(b, n),
    decreases n,
{
    if n > 0 {
        lemma_own_sum_agrees(a, b, n - 1);
        assert(a[n - 1].own() == b[n - 1].own());
    }
}

/// Adds counts to the total counts of one section.
fn add_to_total(sections: &mut Vec<Section>, p: usize, chars: usize, words: usize, lines: usize)
    requires
        p < old(sections)@.len(),
        old(sections)@[p as int].total_chars + chars <= usize::MAX,
        old(sections)@[p as int].total_words + words <= usize::MAX,
        old(sections)@[p as int].total_lines + lines <= usize::MAX,
    ensures
        final(sections)@ == old(sections)@.update(
            p as int,
            (Section {
                total_chars: (old(sections)@[p as int].total_chars + chars) as usize,
                total_words: (old(sections)@[p as int].total_words + words) as usize,
                total_lines: (old(sections)@[p as int].total_lines + lines) as usize,
                ..old(sections)@[p as int]
            }),
        ),
{
    let total_chars: usize = sections[p].total_chars + chars;
    let total_words: usize = sections[p].total_words + words;
    let total_lines: usize = sections[p].total_lines + lines;
    sections[p].total_chars = total_chars;
    sections[p].total_words = total_words;
    sections[p].total_lines = total_lines;
    proof {
        assert(sections@ =~= old(sections)@.update(p as int, sections@[p as int]));
    }
}

/// Gives every section its total counts, from the own counts and the
/// ancestors that the sections hold, and returns the section that stands
/// for the whole document.
///
/// The sections are gone through once, in their order: the own counts of
/// each are added to the total of each of its ancestors and to the total of
/// the document.
pub fn aggregate(sections: &mut Vec<Section>) -> (total: Section)
    requires
        tables_sound(old(sections)@),
        own_sum(old(sections)@, old(sections)@.len() as int).fits(),
    ensures
        final(sections)@.len() == old(sections)@.len(),
        forall|i: int|
            0 <= i < old(sections)@.len() ==> same_but_totals(
                old(sections)@[i],
                #[trigger] final(sections)@[i],
            ),
        aggregated(final(sections)@),
        is_total(total, own_sum(final(sections)@, final(sections)@.len() as int)),
{
    let ghost before = sections@;
    let n: usize = sections.len();
    let mut sum_chars: usize = 0;
    let mut sum_words: usize = 0;
    let mut sum_lines: usize = 0;
    let mut j: usize = 0;
    while j < n
        invariant
            j <= n,
            sections@.len() == n,
            before.len() == n,
            before == old(sections)@,
            tables_sound(before),
            own_sum(before, n as int).fits(),
            forall|k: int| 0 <= k < n ==> same_but_totals(before[k], #[trigger] sections@[k]),
            forall|p: int|
                0 <= p < j ==> (#[trigger] sections@[p]).total() == before[p].own().plus(
                    rolled_up(before, p, j as int),
                ),
            own_sum(before, j as int) == (Tally {
                chars: sum_chars as int,
                words: sum_words as int,
                lines: sum_lines as int,
            }),
        decreases n - j,
    {
        let chars: usize = sections[j].chars;
        let words: usize = sections[j].words;
        let lines: usize = sections[j].lines;
        let first: Option<usize> = sections[j].parents[0];
        let second: Option<usize> = sections[j].parents[1];
        proof {
            assert(same_but_totals(before[j as int], sections@[j as int]));
            lemma_own_sum_grows(before, j + 1, n as int);
            lemma_nothing_rolled_up_yet(before, j as int, j + 1);
        }
        sections[j].total_chars = chars;
        sections[j].total_words = words;
        sections[j].total_lines = lines;
        let ghost start = sections@;
        assert forall|k: int| 0 <= k < n implies same_but_totals(
            #[trigger] before[k],
            start[k],
        ) by {}
        match first {
            Some(p) => {
                proof {
                    assert(same_but_totals(before[p as int], start[p as int]));
                    lemma_rolled_up_bounded(before, p as int, j as int + 1);
                }
                add_to_total(sections, p, chars, words, lines);
            },
            None => {},
        }
        let ghost middle = sections@;
        assert forall|k: int| 0 <= k < n implies same_but_totals(
            #[trigger] before[k],
            middle[k],
        ) by {
            assert(same_but_totals(before[k], start[k]));
        }
        match second {
            Some(p) => {
                proof {
                    assert(same_but_totals(before[p as int], start[p as int]));
                    lemma_rolled_up_bounded(before, p as int, j as int + 1);
                }
                add_to_total(sections, p, chars, words, lines);
            },
            None => {},
        }
        proof {
            assert forall|k: int| 0 <= k < n implies same_but_totals(
                #[trigger] before[k],
                sections@[k],
            ) by {
                assert(same_but_totals(before[k], middle[k]));
            }
            assert forall|p: int| 0 <= p < j + 1 implies (#[trigger] sections@[p]).total()
                == before[p].own().plus(rolled_up(before, p, j + 1)) by {
                assert(same_but_totals(before[p], start[p]));
                if p < j {
                    assert(start[p].total() == before[p].own().plus(
                        rolled_up(before, p, j as int),
                    ));
                }
            }
        }
        sum_chars = sum_chars + chars;
        sum_words = sum_words + words;
        sum_lines = sum_lines + lines;
        j = j + 1;
    }
    proof {
        assert forall|p: int| 0 <= p < n implies (#[trigger] sections@[p]).total() == total_of(
            sections@,
            p,
        ) by {
            lemma_rolled_up_agrees(before, sections@, p, n as int);
            assert(same_but_totals(before[p], sections@[p]));
        }
        lemma_own_sum_agrees(before, sections@, n as int);
    }
    Section {
        start: 0,
        end: 0,
        name: String::from_str("Total"),
        chars: sum_chars,
        words: sum_words,
        lines: sum_lines,
        total_chars: sum_chars,
        total_words: sum_words,
        total_lines: sum_lines,
        parents: [None, None],
        level: 0,
    }
}

} // verus!
