//! Finding, for every heading, the nearest enclosing heading at each of the
//! two shallowest levels.

use crate::section::Section;
use vstd::prelude::*;

verus! {

/// Ancestors are tracked at the levels below this one.
pub const TRACKED_LEVELS: usize = 2;

/// Section `j` is the nearest enclosing section of section `i` at level
/// `slot`: it stands before `i` at that level, the level is shallower than
/// that of `i`, and no section between the two is at level `slot` or at
/// level 0.
pub open spec fn is_nearest_at(s: Seq<Section>, i: int, slot: int, j: int) -> bool {
    &&& 0 <= j < i < s.len()
    &&& s[j].level == slot
    &&& slot < s[i].level
    &&& forall|k: int| j < k < i ==> (#[trigger] s[k]).level != 0 && s[k].level != slot
}

/// `found` is what belongs in the ancestor slot `slot` of section `i`: the
/// nearest enclosing section at that level, or nothing where there is none.
pub open spec fn slot_resolved(s: Seq<Section>, i: int, slot: int, found: Option<usize>) -> bool {
    match found {
        Some(j) => is_nearest_at(s, i, slot, j as int),
        None => forall|j: int| !is_nearest_at(s, i, slot, j),
    }
}

/// Every section holds its nearest enclosing sections.
pub open spec fn parents_resolved(s: Seq<Section>) -> bool {
    forall|i: int, slot: int|
        0 <= i < s.len() && 0 <= slot < TRACKED_LEVELS ==> slot_resolved(
            s,
            i,
            slot,
            #[trigger] s[i].parents[slot],
        )
}

/// The section `after` is the section `before` with other ancestor slots.
pub open spec fn same_but_parents(before: Section, after: Section) -> bool {
    after == (Section { parents: after.parents, ..before })
}

/// Gives every section its nearest enclosing sections at level 0 and at
/// level 1, and leaves everything else in the sections as it is.
///
/// From each section the search walks back over the sections before it. The
/// first section that it meets at a level shallower than that of the section
/// itself fills the slot of that level. The walk ends behind the first
/// section at level 0, or at the start of the document.
pub fn figure_out_parents(sections: &mut Vec<Section>)
    ensures
        final(sections)@.len() == old(sections)@.len(),
        forall|i: int|
            0 <= i < old(sections)@.len() ==> same_but_parents(
                old(sections)@[i],
                #[trigger] final(sections)@[i],
            ),
        parents_resolved(final(sections)@),
{
    let n: usize = sections.len();
    let mut i: usize = 0;
    while i < n
        invariant
            i <= n,
            sections@.len() == n,
            old(sections)@.len() == n,
            forall|k: int|
                0 <= k < n ==> same_but_parents(#[trigger] old(sections)@[k], sections@[k]),
            forall|k: int, slot: int|
                0 <= k < i && 0 <= slot < TRACKED_LEVELS ==> slot_resolved(
                    sections@,
                    k,
                    slot,
                    #[trigger] sections@[k].parents[slot],
                ),
        decreases n - i,
    {
        let this_level: usize = sections[i].level;
        let mut parents: [Option<usize>; 2] = [None, None];
        let mut j: usize = i;
        while j > 0
            invariant_except_break
                forall|k: int| j <= k < i ==> (#[trigger] sections@[k]).level != 0,
            invariant
                j <= i < n,
                sections@.len() == n,
                this_level == sections@[i as int].level,
                forall|slot: int|
                    0 <= slot < TRACKED_LEVELS ==> match #[trigger] parents[slot] {
                        Some(p) => j <= p && is_nearest_at(sections@, i as int, slot, p as int),
                        None => forall|k: int|
                            j <= k < i ==> !(slot < this_level && (#[trigger] sections@[k]).level
                                == slot),
                    },
            ensures
                j <= i,
                j > 0 ==> sections@[j as int].level == 0,
                forall|k: int| j < k < i ==> (#[trigger] sections@[k]).level != 0,
                forall|slot: int|
                    0 <= slot < TRACKED_LEVELS ==> match #[trigger] parents[slot] {
                        Some(p) => is_nearest_at(sections@, i as int, slot, p as int),
                        None => forall|k: int|
                            j <= k < i ==> !(slot < this_level && (#[trigger] sections@[k]).level
                                == slot),
                    },
            decreases j,
        {
            j = j - 1;
            let level: usize = sections[j].level;
            if level < this_level && level < TRACKED_LEVELS && parents[level].is_none() {
                parents[level] = Some(j);
            }
            if level == 0 {
                break;
            }
        }
        proof {
            assert forall|slot: int| 0 <= slot < TRACKED_LEVELS implies slot_resolved(
                sections@,
                i as int,
                slot,
                #[trigger] parents[slot],
            ) by {
                if parents[slot] is None {
                    assert forall|c: int| !is_nearest_at(sections@, i as int, slot, c) by {
                        if is_nearest_at(sections@, i as int, slot, c) {
                            if c < j {
                                assert(sections@[j as int].level == 0);
                            } else {
                                assert(sections@[c].level == slot);
                            }
                        }
                    }
                }
            }
        }
        let ghost before = sections@;
        sections[i].parents = parents;
        proof {
            assert forall|k: int, slot: int|
                0 <= k < i + 1 && 0 <= slot < TRACKED_LEVELS implies slot_resolved(
                sections@,
                k,
                slot,
                #[trigger] sections@[k].parents[slot],
            ) by {
                lemma_levels_decide(before, sections@, k, slot, sections@[k].parents[slot]);
            }
        }
        i = i + 1;
    }
}

/// Whether a slot is resolved depends on the levels of the sections alone.
pub proof fn lemma_levels_decide(
    a: Seq<Section>,
    b: Seq<Section>,
    i: int,
    slot: int,
    found: Option<usize>,
)
    requires
        a.len() == b.len(),
        forall|k: int| 0 <= k < a.len() ==> (#[trigger] a[k]).level == b[k].level,
        slot_resolved(a, i, slot, found),
    ensures
        slot_resolved(b, i, slot, found),
{
    assert forall|j: int| is_nearest_at(b, i, slot, j) implies is_nearest_at(a, i, slot, j) by {
        assert forall|k: int| j < k < i implies (#[trigger] a[k]).level != 0 && a[k].level
            != slot by {
            assert(b[k].level != 0 && b[k].level != slot);
        }
    }
    match found {
        Some(j) => {
            assert forall|k: int| j < k < i implies (#[trigger] b[k]).level != 0 && b[k].level
                != slot by {
                assert(a[k].level != 0 && a[k].level != slot);
            }
        },
        None => {},
    }
}

/// Sections that hold their nearest enclosing sections still do so after a
/// change that leaves their levels and their ancestor slots alone.
pub proof fn lemma_resolved_kept(a: Seq<Section>, b: Seq<Section>)
    requires
        a.len() == b.len(),
        forall|k: int|
            0 <= k < b.len() ==> a[k].level == (#[trigger] b[k]).level && a[k].parents
                == b[k].parents,
        parents_resolved(a),
    ensures
        parents_resolved(b),
{
    assert forall|i: int, slot: int|
        0 <= i < b.len() && 0 <= slot < TRACKED_LEVELS implies slot_resolved(
        b,
        i,
        slot,
        #[trigger] b[i].parents[slot],
    ) by {
        assert(slot_resolved(a, i, slot, a[i].parents[slot]));
        assert forall|k: int| 0 <= k < a.len() implies (#[trigger] a[k]).level == b[k].level by {
            assert(a[k].level == b[k].level);
        }
        lemma_levels_decide(a, b, i, slot, a[i].parents[slot]);
    }
}

/// A slot can be resolved in one way only.
pub proof fn lemma_nearest_is_unique(
    s: Seq<Section>,
    i: int,
    slot: int,
    one: Option<usize>,
    other: Option<usize>,
)
    requires
        slot_resolved(s, i, slot, one),
        slot_resolved(s, i, slot, other),
    ensures
        one == other,
{
    match (one, other) {
        (Some(j), Some(k)) => {
            if j < k {
                assert(s[k as int].level == slot);
            } else if k < j {
                assert(s[j as int].level == slot);
            }
        },
        (Some(j), None) => {
            assert(is_nearest_at(s, i, slot, j as int));
        },
        (None, Some(k)) => {
            assert(is_nearest_at(s, i, slot, k as int));
        },
        (None, None) => {},
    }
}

} // verus!
