//! The section record and the counts it carries.

use vstd::prelude::*;

verus! {

/// Character, word and line counts as unbounded numbers.
pub struct Tally {
    pub chars: int,
    pub words: int,
    pub lines: int,
}

impl Tally {
    pub open spec fn zero() -> Tally {
        Tally { chars: 0, words: 0, lines: 0 }
    }

    pub open spec fn plus(self, other: Tally) -> Tally {
        Tally {
            chars: self.chars + other.chars,
            words: self.words + other.words,
            lines: self.lines + other.lines,
        }
    }

    /// Every count of `self` is at most the matching count of `other`.
    pub open spec fn within(self, other: Tally) -> bool {
        self.chars <= other.chars && self.words <= other.words && self.lines <= other.lines
    }

    /// No count is negative.
    pub open spec fn natural(self) -> bool {
        Tally::zero().within(self)
    }

    /// Every count can be held in a `usize`.
    pub open spec fn fits(self) -> bool {
        self.natural() && self.chars <= usize::MAX && self.words <= usize::MAX && self.lines
            <= usize::MAX
    }
}

/// One heading of the document with the statistics of its text.
///
/// `start` and `end` are byte offsets into the document: the heading's
/// keyword begins at `start`, and the text that belongs to the section begins
/// at `end`, just behind the closing brace of the title.
#[derive(Debug)]
pub struct Section {
    pub start: usize,
    pub end: usize,
    pub name: String,
    pub chars: usize,
    pub words: usize,
    pub lines: usize,
    pub total_chars: usize,
    pub total_words: usize,
    pub total_lines: usize,
    /// The nearest enclosing section at level 0 and at level 1, by index.
    pub parents: [Option<usize>; 2],
    pub level: usize,
}

impl Section {
    /// The counts of the section's own text.
    pub open spec fn own(&self) -> Tally {
        Tally { chars: self.chars as int, words: self.words as int, lines: self.lines as int }
    }

    /// The counts of the section's text together with that of its descendants.
    pub open spec fn total(&self) -> Tally {
        Tally {
            chars: self.total_chars as int,
            words: self.total_words as int,
            lines: self.total_lines as int,
        }
    }

    /// The section at index `p` stands in one of the two ancestor slots.
    pub open spec fn has_parent(&self, p: int) -> bool {
        ||| self.parents[0] matches Some(q) && q == p
        ||| self.parents[1] matches Some(q) && q == p
    }

    /// A section that nothing has been counted for yet and whose ancestors
    /// have not been looked for.
    pub open spec fn is_fresh(&self) -> bool {
        &&& self.own() == Tally::zero()
        &&& self.total() == Tally::zero()
        &&& self.parents[0] is None
        &&& self.parents[1] is None
    }
}

impl Default for Section {
    fn default() -> (s: Section)
        ensures
            s.is_fresh(),
            s.start == 0,
            s.end == 0,
            s.name@ == Seq::<char>::empty(),
            s.level == 0,
    {
        Section {
            start: 0,
            end: 0,
            name: String::new(),
            chars: 0,
            words: 0,
            lines: 0,
            total_chars: 0,
            total_words: 0,
            total_lines: 0,
            parents: [None, None],
            level: 0,
        }
    }
}

} // verus!
