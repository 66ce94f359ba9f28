//! The text in which a section and its counts are shown.

use crate::section::Section;
use vstd::prelude::*;
use vstd::string::StringExecFns;

verus! {

/// The character for a digit.
pub open spec fn digit_char(d: nat) -> char {
    if d == 0 {
        '0'
    } else if d == 1 {
        '1'
    } else if d == 2 {
        '2'
    } else if d == 3 {
        '3'
    } else if d == 4 {
        '4'
    } else if d == 5 {
        '5'
    } else if d == 6 {
        '6'
    } else if d == 7 {
        '7'
    } else if d == 8 {
        '8'
    } else {
        '9'
    }
}

/// The number in decimal digits, without leading zeros.
pub open spec fn decimal(n: nat) -> Seq<char>
    decreases n,
{
    if n < 10 {
        seq![digit_char(n)]
    } else {
        decimal(n / 10).push(digit_char(n % 10))
    }
}

/// A run of `n` tabs.
pub open spec fn tabs(n: nat) -> Seq<char> {
    Seq::new(n, |i: int| '\t')
}

/// The three counts, each with its label.
pub open spec fn counts_text(words: nat, lines: nat, chars: nat) -> Seq<char> {
    "words: "@ + decimal(words) + ", lines: "@ + decimal(lines) + ", chars: "@ + decimal(chars)
        + "\n"@
}

/// The three total counts. The label of the lines has no colon.
pub open spec fn totals_text(words: nat, lines: nat, chars: nat) -> Seq<char> {
    "tot words: "@ + decimal(words) + ", lines "@ + decimal(lines) + ", chars: "@ + decimal(chars)
        + "\n"@
}

/// The text that shows a section: its name on a line of its own, then its
/// counts on one line where the total counts are the own counts, and else
/// the own counts and the total counts on a line each. Every line begins
/// with as many tabs as the section is deep.
pub open spec fn render_spec(section: Section) -> Seq<char> {
    let indent = tabs(section.level as nat);
    let head = indent + section.name@ + "\n"@ + indent;
    let own = counts_text(section.words as nat, section.lines as nat, section.chars as nat);
    if section.own() == section.total() {
        head + own
    } else {
        head + "own "@ + own + indent + totals_text(
            section.total_words as nat,
            section.total_lines as nat,
            section.total_chars as nat,
        )
    }
}

fn digit_str(d: usize) -> (s: &'static str)
    requires
        d < 10,
    ensures
        s@ == seq![digit_char(d as nat)],
{
    proof {
        reveal_strlit("0");
        reveal_strlit("1");
        reveal_strlit("2");
        reveal_strlit("3");
        reveal_strlit("4");
        reveal_strlit("5");
        reveal_strlit("6");
        reveal_strlit("7");
        reveal_strlit("8");
        reveal_strlit("9");
    }
    let s: &'static str = if d == 0 {
        "0"
    } else if d == 1 {
        "1"
    } else if d == 2 {
        "2"
    } else if d == 3 {
        "3"
    } else if d == 4 {
        "4"
    } else if d == 5 {
        "5"
    } else if d == 6 {
        "6"
    } else if d == 7 {
        "7"
    } else if d == 8 {
        "8"
    } else {
        "9"
    };
    assert(s@ =~= seq![digit_char(d as nat)]);
    s
}

/// Writes a number in decimal digits behind what `out` holds.
pub fn push_decimal(out: &mut String, n: usize)
    ensures
        final(out)@ == old(out)@ + decimal(n as nat),
    decreases n,
{
    if n >= 10 {
        push_decimal(out, n / 10);
    }
    out.append(digit_str(n % 10));
    proof {
        if n >= 10 {
            assert(out@ =~= old(out)@ + decimal(n as nat));
        } else {
            assert(out@ =~= old(out)@ + decimal(n as nat));
        }
    }
}

/// Writes `n` tabs behind what `out` holds.
fn push_tabs(out: &mut String, n: usize)
    ensures
        final(out)@ == old(out)@ + tabs(n as nat),
{
    let mut i: usize = 0;
    proof {
        assert(out@ =~= old(out)@ + tabs(0));
    }
    while i < n
        invariant
            i <= n,
            out@ == old(out)@ + tabs(i as nat),
        decreases n - i,
    {
        proof {
            reveal_strlit("\t");
        }
        out.append("\t");
        i = i + 1;
        proof {
            assert(out@ =~= old(out)@ + tabs(i as nat));
        }
    }
}

/// Writes three counts with their labels behind what `out` holds.
fn push_counts(out: &mut String, words: usize, lines: usize, chars: usize)
    ensures
        final(out)@ == old(out)@ + counts_text(words as nat, lines as nat, chars as nat),
{
    out.append("words: ");
    push_decimal(out, words);
    out.append(", lines: ");
    push_decimal(out, lines);
    out.append(", chars: ");
    push_decimal(out, chars);
    out.append("\n");
    proof {
        assert(out@ =~= old(out)@ + counts_text(words as nat, lines as nat, chars as nat));
    }
}

/// Writes three total counts with their labels behind what `out` holds.
fn push_totals(out: &mut String, words: usize, lines: usize, chars: usize)
    ensures
        final(out)@ == old(out)@ + totals_text(words as nat, lines as nat, chars as nat),
{
    out.append("tot words: ");
    push_decimal(out, words);
    out.append(", lines ");
    push_decimal(out, lines);
    out.append(", chars: ");
    push_decimal(out, chars);
    out.append("\n");
    proof {
        assert(out@ =~= old(out)@ + totals_text(words as nat, lines as nat, chars as nat));
    }
}

impl Section {
    /// Writes the text that shows the section behind what `out` holds.
    pub fn render_into(&self, out: &mut String)
        ensures
            final(out)@ == old(out)@ + render_spec(*self),
    {
        push_tabs(out, self.level);
        out.append(self.name.as_str());
        out.append("\n");
        push_tabs(out, self.level);
        if self.words == self.total_words && self.chars == self.total_chars && self.lines
            == self.total_lines {
            push_counts(out, self.words, self.lines, self.chars);
            proof {
                assert(out@ =~= old(out)@ + render_spec(*self));
            }
        } else {
            out.append("own ");
            push_counts(out, self.words, self.lines, self.chars);
            push_tabs(out, self.level);
            push_totals(out, self.total_words, self.total_lines, self.total_chars);
            proof {
                assert(out@ =~= old(out)@ + render_spec(*self));
            }
        }
    }

    /// The text that shows the section.
    pub fn render(&self) -> (shown: String)
        ensures
            shown@ == render_spec(*self),
    {
        let mut shown: String = String::new();
        self.render_into(&mut shown);
        proof {
            assert(shown@ =~= render_spec(*self));
        }
        shown
    }
}

} // verus!
