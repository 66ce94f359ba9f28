//! Cleaning the text of a section and counting what is left of it.
//!
//! The text is split into lines. Each line loses its comment, and a line that
//! is then empty, holds only `$$` or begins with a backslash is skipped. The
//! lines that are left give the counts.

use crate::section::Tally;
use vstd::prelude::*;

verus! {

/// The three counts of a piece of text, as they are computed.
#[derive(Clone, Copy, Debug, PartialEq, Eq)]
pub struct Counts {
    pub chars: usize,
    pub words: usize,
    pub lines: usize,
}

impl View for Counts {
    type V = Tally;

    open spec fn view(&self) -> Tally {
        Tally { chars: self.chars as int, words: self.words as int, lines: self.lines as int }
    }
}

/// The characters that Unicode classes as white space.
pub open spec fn is_space(c: char) -> bool {
    let u = c as u32;
    ||| 0x09 <= u <= 0x0D
    ||| u == 0x20
    ||| u == 0x85
    ||| u == 0xA0
    ||| u == 0x1680
    ||| 0x2000 <= u <= 0x200A
    ||| u == 0x2028
    ||| u == 0x2029
    ||| u == 0x202F
    ||| u == 0x205F
    ||| u == 0x3000
}

/// A word begins at index `i` of `s`: a character that is no white space,
/// at the start of `s` or behind white space.
pub open spec fn word_starts_at(s: Seq<char>, i: int) -> bool {
    0 <= i < s.len() && !is_space(s[i]) && (i == 0 || is_space(s[i - 1]))
}

/// The number of words of `s` that begin before index `n`.
pub open spec fn words_before(s: Seq<char>, n: int) -> nat
    decreases n,
{
    if n <= 0 {
        0
    } else {
        words_before(s, n - 1) + if word_starts_at(s, n - 1) {
            1nat
        } else {
            0nat
        }
    }
}

/// The number of runs of characters between white space.
pub open spec fn word_count(s: Seq<char>) -> nat {
    words_before(s, s.len() as int)
}

/// A comment begins at index `i` of the line `s`: a `%` with no backslash
/// directly before it.
pub open spec fn comment_at(s: Seq<char>, i: int) -> bool {
    0 <= i < s.len() && s[i] == '%' && (i == 0 || s[i - 1] != '\\')
}

/// The first index at or behind `i` where a comment begins, or the length of
/// `s` where none does.
pub open spec fn comment_from(s: Seq<char>, i: nat) -> nat
    decreases s.len() - i,
{
    if i >= s.len() {
        s.len()
    } else if comment_at(s, i as int) {
        i
    } else {
        comment_from(s, i + 1)
    }
}

/// The line without its comment.
pub open spec fn strip_comment(line: Seq<char>) -> Seq<char> {
    line.take(comment_from(line, 0) as int)
}

/// A line that counts for nothing once its comment is gone: an empty one,
/// one that holds `$$` and nothing else, one that begins with a backslash.
pub open spec fn is_skipped(stripped: Seq<char>) -> bool {
    ||| stripped.len() == 0
    ||| stripped =~= seq!['$', '$']
    ||| stripped[0] == '\\'
}

/// What one line adds to the counts of its section.
pub open spec fn line_tally(line: Seq<char>) -> Tally {
    let stripped = strip_comment(line);
    if is_skipped(stripped) {
        Tally::zero()
    } else {
        Tally { chars: stripped.len() as int, words: word_count(stripped) as int, lines: 1 }
    }
}

/// The first index at or behind `i` that holds a line feed, or the length of
/// `s` where none does.
pub open spec fn newline_from(s: Seq<char>, i: nat) -> nat
    decreases s.len() - i,
{
    if i >= s.len() {
        s.len()
    } else if s[i as int] == '\n' {
        i
    } else {
        newline_from(s, i + 1)
    }
}

/// The line without the carriage return at its end, if it has one.
pub open spec fn chomp(line: Seq<char>) -> Seq<char> {
    if line.len() > 0 && line.last() == '\r' {
        line.drop_last()
    } else {
        line
    }
}

/// The lines of `s`. A line ends with a line feed, or with a carriage return
/// and a line feed; neither belongs to the line. What follows the last line
/// feed is a line too, unless it is empty.
pub open spec fn text_lines(s: Seq<char>) -> Seq<Seq<char>>
    decreases s.len(),
{
    let end = newline_from(s, 0) as int;
    if s.len() == 0 {
        Seq::empty()
    } else if end >= s.len() {
        seq![s]
    } else {
        seq![chomp(s.take(end))] + text_lines(s.skip(end + 1))
    }
}

/// The sum of what each of the lines adds.
pub open spec fn tally_of_lines(lines: Seq<Seq<char>>) -> Tally
    decreases lines.len(),
{
    if lines.len() == 0 {
        Tally::zero()
    } else {
        line_tally(lines[0]).plus(tally_of_lines(lines.drop_first()))
    }
}

/// The counts of a section whose own text is `s`.
pub open spec fn span_tally(s: Seq<char>) -> Tally {
    tally_of_lines(text_lines(s))
}

/// `end` is the first index at or behind `i` that holds a line feed.
pub proof fn lemma_newline_from(s: Seq<char>, i: nat, end: nat)
    requires
        i <= end <= s.len(),
        forall|k: int| i <= k < end ==> s[k] != '\n',
        end < s.len() ==> s[end as int] == '\n',
    ensures
        newline_from(s, i) == end,
    decreases end - i,
{
    if i < end {
        lemma_newline_from(s, i + 1, end);
    }
}

/// `cut` is the first index at or behind `i` where a comment begins.
pub proof fn lemma_comment_from(s: Seq<char>, i: nat, cut: nat)
    requires
        i <= cut <= s.len(),
        forall|k: int| i <= k < cut ==> !comment_at(s, k),
        cut < s.len() ==> comment_at(s, cut as int),
    ensures
        comment_from(s, i) == cut,
    decreases cut - i,
{
    if i < cut {
        lemma_comment_from(s, i + 1, cut);
    }
}

pub fn is_whitespace(c: char) -> (b: bool)
    ensures
        b == is_space(c),
{
    let u: u32 = c as u32;
    (0x09 <= u && u <= 0x0D) || u == 0x20 || u == 0x85 || u == 0xA0 || u == 0x1680 || (0x2000 <= u
        && u <= 0x200A) || u == 0x2028 || u == 0x2029 || u == 0x202F || u == 0x205F || u == 0x3000
}

/// Counts the words of `text[from..to]`.
pub fn count_words(text: &Vec<char>, from: usize, to: usize) -> (n: usize)
    requires
        from <= to <= text@.len(),
    ensures
        n == word_count(text@.subrange(from as int, to as int)),
        n <= to - from,
{
    let ghost line = text@.subrange(from as int, to as int);
    let mut n: usize = 0;
    let mut after_space: bool = true;
    let mut k: usize = from;
    while k < to
        invariant
            from <= k <= to <= text@.len(),
            line == text@.subrange(from as int, to as int),
            n == words_before(line, k - from),
            n <= k - from,
            after_space == (k == from || is_space(text@[k - 1])),
        decreases to - k,
    {
        let space: bool = is_whitespace(text[k]);
        proof {
            assert(line[k - from] == text@[k as int]);
            if k > from {
                assert(line[k - from - 1] == text@[k - 1]);
            }
        }
        if !space && after_space {
            n = n + 1;
        }
        after_space = space;
        k = k + 1;
    }
    n
}

/// Finds where the comment of the line `text[from..to]` begins.
pub fn find_comment(text: &Vec<char>, from: usize, to: usize) -> (cut: usize)
    requires
        from <= to <= text@.len(),
    ensures
        from <= cut <= to,
        cut - from == comment_from(text@.subrange(from as int, to as int), 0),
{
    let ghost line = text@.subrange(from as int, to as int);
    let mut k: usize = from;
    while k < to
        invariant
            from <= k <= to <= text@.len(),
            line == text@.subrange(from as int, to as int),
            forall|m: int| 0 <= m < k - from ==> !comment_at(line, m),
        decreases to - k,
    {
        proof {
            assert(line[k - from] == text@[k as int]);
            if k > from {
                assert(line[k - from - 1] == text@[k - 1]);
            }
        }
        if text[k] == '%' && (k == from || text[k - 1] != '\\') {
            proof {
                lemma_comment_from(line, 0, (k - from) as nat);
            }
            return k;
        }
        k = k + 1;
    }
    proof {
        lemma_comment_from(line, 0, (to - from) as nat);
    }
    to
}

/// Counts one line, `text[from..to]`, without its line ending.
pub fn count_line(text: &Vec<char>, from: usize, to: usize) -> (c: Counts)
    requires
        from <= to <= text@.len(),
    ensures
        c@ == line_tally(text@.subrange(from as int, to as int)),
        c.chars <= to - from,
        c.words <= to - from,
        c.lines <= to - from,
{
    let ghost line = text@.subrange(from as int, to as int);
    let cut: usize = find_comment(text, from, to);
    let ghost stripped = strip_comment(line);
    proof {
        assert(stripped =~= text@.subrange(from as int, cut as int));
        if cut > from {
            assert(stripped[0] == text@[from as int]);
        }
        if cut == from + 2 {
            assert(stripped[0] == text@[from as int]);
            assert(stripped[1] == text@[from + 1]);
        }
    }
    let skipped: bool = cut == from || text[from] == '\\' || (cut - from == 2 && text[from] == '$'
        && text[from + 1] == '$');
    if skipped {
        Counts { chars: 0, words: 0, lines: 0 }
    } else {
        let words: usize = count_words(text, from, cut);
        Counts { chars: cut - from, words, lines: 1 }
    }
}

/// Counts the characters, words and lines of a section's own text.
pub fn tally_text(text: &Vec<char>) -> (c: Counts)
    ensures
        c@ == span_tally(text@),
        c.chars <= text@.len(),
        c.words <= text@.len(),
        c.lines <= text@.len(),
{
    let n: usize = text.len();
    let mut acc: Counts = Counts { chars: 0, words: 0, lines: 0 };
    let mut pos: usize = 0;
    proof {
        assert(text@.skip(0) =~= text@);
    }
    while pos < n
        invariant
            pos <= n == text@.len(),
            acc.chars <= pos,
            acc.words <= pos,
            acc.lines <= pos,
            acc@.plus(span_tally(text@.skip(pos as int))) == span_tally(text@),
        decreases n - pos,
    {
        let ghost rest = text@.skip(pos as int);
        let mut end: usize = pos;
        while end < n && text[end] != '\n'
            invariant
                pos <= end <= n == text@.len(),
                forall|k: int| pos <= k < end ==> text@[k] != '\n',
            decreases n - end,
        {
            end = end + 1;
        }
        proof {
            assert forall|k: int| 0 <= k < end - pos implies rest[k] != '\n' by {
                assert(rest[k] == text@[pos + k]);
            }
            lemma_newline_from(rest, 0, (end - pos) as nat);
            assert(rest.take(end - pos) =~= text@.subrange(pos as int, end as int));
        }
        if end == n {
            let line: Counts = count_line(text, pos, end);
            proof {
                assert(rest =~= text@.subrange(pos as int, end as int));
                assert(text_lines(rest) =~= seq![rest]);
                assert(text_lines(rest).drop_first() =~= Seq::<Seq<char>>::empty());
                assert(text@.skip(n as int) =~= Seq::<char>::empty());
            }
            acc = Counts {
                chars: acc.chars + line.chars,
                words: acc.words + line.words,
                lines: acc.lines + line.lines,
            };
            pos = n;
        } else {
            let stop: usize = if end > pos && text[end - 1] == '\r' {
                end - 1
            } else {
                end
            };
            let line: Counts = count_line(text, pos, stop);
            proof {
                let whole = rest.take(end - pos);
                assert(chomp(whole) =~= text@.subrange(pos as int, stop as int)) by {
                    if end > pos {
                        assert(whole.last() == text@[end - 1]);
                    }
                }
                assert(rest.skip(end - pos + 1) =~= text@.skip(end + 1));
                let lines = text_lines(rest);
                assert(lines =~= seq![chomp(whole)] + text_lines(text@.skip(end + 1)));
                assert(lines.drop_first() =~= text_lines(text@.skip(end + 1)));
            }
            acc = Counts {
                chars: acc.chars + line.chars,
                words: acc.words + line.words,
                lines: acc.lines + line.lines,
            };
            pos = end + 1;
        }
    }
    proof {
        assert(text@.skip(n as int) =~= Seq::<char>::empty());
    }
    acc
}

/// No more words begin before an index than there are characters before it.
pub proof fn lemma_words_bounded(s: Seq<char>, n: int)
    requires
        0 <= n,
    ensures
        words_before(s, n) <= n,
    decreases n,
{
    if n > 0 {
        lemma_words_bounded(s, n - 1);
    }
}

/// A line adds no more to any count than it has characters.
pub proof fn lemma_line_tally_bounded(line: Seq<char>)
    ensures
        line_tally(line).natural(),
        line_tally(line).chars <= line.len(),
        line_tally(line).words <= line.len(),
        line_tally(line).lines <= line.len(),
{
    let stripped = strip_comment(line);
    lemma_comment_is_first(line, 0);
    lemma_words_bounded(stripped, stripped.len() as int);
}

/// Where the comment of a line begins: no comment begins before that
/// index, and one begins there unless it is the end of the line.
pub proof fn lemma_comment_is_first(line: Seq<char>, i: nat)
    requires
        i <= line.len(),
    ensures
        i <= comment_from(line, i) <= line.len(),
        forall|k: int| i <= k < comment_from(line, i) ==> !comment_at(line, k),
        comment_from(line, i) < line.len() ==> comment_at(line, comment_from(line, i) as int),
    decreases line.len() - i,
{
    if i < line.len() && !comment_at(line, i as int) {
        lemma_comment_is_first(line, i + 1);
    }
}

/// Where the first line of a text ends: no line feed stands before that
/// index, and one stands there unless it is the end of the text.
pub proof fn lemma_newline_is_first(s: Seq<char>, i: nat)
    requires
        i <= s.len(),
    ensures
        i <= newline_from(s, i) <= s.len(),
        forall|k: int| i <= k < newline_from(s, i) ==> s[k] != '\n',
        newline_from(s, i) < s.len() ==> s[newline_from(s, i) as int] == '\n',
    decreases s.len() - i,
{
    if i < s.len() && s[i as int] != '\n' {
        lemma_newline_is_first(s, i + 1);
    }
}

/// No count of a text is larger than the number of its characters.
pub proof fn lemma_span_tally_bounded(s: Seq<char>)
    ensures
        span_tally(s).natural(),
        span_tally(s).chars <= s.len(),
        span_tally(s).words <= s.len(),
        span_tally(s).lines <= s.len(),
    decreases s.len(),
{
    let end = newline_from(s, 0) as int;
    let lines = text_lines(s);
    lemma_newline_is_first(s, 0);
    if s.len() == 0 {
    } else if end >= s.len() {
        lemma_line_tally_bounded(s);
        assert(lines[0] == s);
        assert(lines.drop_first() =~= Seq::<Seq<char>>::empty());
        assert(tally_of_lines(lines.drop_first()) == Tally::zero());
    } else {
        let first = chomp(s.take(end));
        let rest = s.skip(end + 1);
        lemma_line_tally_bounded(first);
        lemma_span_tally_bounded(rest);
        assert(lines[0] == first);
        assert(lines.drop_first() =~= text_lines(rest));
        assert(span_tally(s) == line_tally(first).plus(span_tally(rest)));
    }
}

} // verus!
