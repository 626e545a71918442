//! Byte ranges in a source text, and the line index that turns a byte
//! offset into a line and a column.

use crate::text::{byte_len, byte_pos, char_table, lemma_byte_pos_monotonic, lemma_byte_pos_step, utf8_len};
use once_cell::unsync::OnceCell;
use vstd::prelude::*;

verus! {

/// `once_cell::unsync::OnceCell`, a cell that is written at most once. Its
/// content is not seen.
#[verifier::external_type_specification]
#[verifier::external_body]
#[verifier::reject_recursive_types(T)]
pub struct ExOnceCell<T>(OnceCell<T>);

/// `OnceCell::new` makes an empty cell; nothing is stated of it.
pub assume_specification<T>[ OnceCell::<T>::new ]() -> (c: OnceCell<T>);

/// A half-open range of byte offsets, `start..end`.
#[derive(Debug, Clone, Copy, PartialEq, Eq, Structural)]
pub struct Span {
    pub start: usize,
    pub end: usize,
}

impl Span {
    /// The range from `start` up to, not including, `end`.
    pub fn new(start: usize, end: usize) -> (r: Span)
        ensures
            r.start == start,
            r.end == end,
    {
        Span { start, end }
    }

    /// The smallest range that encloses both `self` and `other`.
    pub open spec fn spec_union(self, other: Span) -> Span {
        Span {
            start: if self.start <= other.start { self.start } else { other.start },
            end: if self.end >= other.end { self.end } else { other.end },
        }
    }

    /// The smallest range that encloses both `self` and `other`.
    pub fn union(self, other: Span) -> (r: Span)
        ensures
            r == self.spec_union(other),
    {
        let start: usize = if self.start <= other.start { self.start } else { other.start };
        let end: usize = if self.end >= other.end { self.end } else { other.end };
        Span { start, end }
    }
}

/// The line starts found in the first `n` characters of `text`: offset 0,
/// then the byte offset just behind each line feed, in order.
pub open spec fn line_starts_upto(text: Seq<char>, n: int) -> Seq<usize>
    decreases n,
{
    if n <= 0 {
        seq![0usize]
    } else if text[n - 1] == '\n' {
        line_starts_upto(text, n - 1).push(byte_pos(text, n) as usize)
    } else {
        line_starts_upto(text, n - 1)
    }
}

/// The byte offset at which each line of `text` starts.
pub open spec fn line_starts_spec(text: Seq<char>) -> Seq<usize> {
    line_starts_upto(text, text.len() as int)
}

/// Line starts begin with 0, grow strictly, and stay within the text.
pub proof fn lemma_line_starts_sorted(text: Seq<char>, n: int)
    requires
        0 <= n <= text.len(),
        utf8_len(text) <= usize::MAX,
    ensures
        line_starts_upto(text, n).len() >= 1,
        line_starts_upto(text, n)[0] == 0,
        forall|i: int| 0 <= i < line_starts_upto(text, n).len() ==> #[trigger] line_starts_upto(text, n)[i] <= byte_pos(text, n),
        forall|i: int, j: int| 0 <= i < j < line_starts_upto(text, n).len() ==> #[trigger] line_starts_upto(text, n)[i] < #[trigger] line_starts_upto(text, n)[j],
    decreases n,
{
    if n > 0 {
        lemma_line_starts_sorted(text, n - 1);
        lemma_byte_pos_step(text, n - 1);
        lemma_byte_pos_monotonic(text, n, text.len() as int);
    }
}

/// The line starts of `text`, computed in one pass.
pub fn compute_line_starts(text: &str) -> (v: Vec<usize>)
    ensures
        v@ == line_starts_spec(text@),
{
    let (chars, offsets) = char_table(text);
    let mut v: Vec<usize> = Vec::new();
    v.push(0);
    let mut i: usize = 0;
    while i < chars.len()
        invariant
            chars@ == text@,
            offsets.len() == chars.len() + 1,
            forall|k: int| 0 <= k <= chars.len() ==> #[trigger] offsets[k] == byte_pos(text@, k),
            0 <= i <= chars.len(),
            v@ == line_starts_upto(text@, i as int),
        decreases chars.len() - i,
    {
        i = i + 1;
        if chars[i - 1] == '\n' {
            v.push(offsets[i]);
        }
    }
    v
}

/// The number of lines, among the first `n`, that start at or before `byte`.
pub open spec fn lines_upto(starts: Seq<usize>, byte: usize, n: int) -> int
    decreases n,
{
    if n <= 0 {
        0
    } else if starts[n - 1] <= byte {
        lines_upto(starts, byte, n - 1) + 1
    } else {
        lines_upto(starts, byte, n - 1)
    }
}

/// The line and the column of a byte offset, both counted from 1: the line
/// is the last one that starts at or before `byte`, the column counts the
/// bytes from the start of that line.
pub open spec fn spec_line_col(text: Seq<char>, byte: usize) -> (int, int) {
    let starts = line_starts_spec(text);
    let line = lines_upto(starts, byte, starts.len() as int);
    (line, byte - starts[line - 1] + 1)
}

proof fn lemma_lines_upto(starts: Seq<usize>, byte: usize, last: int, n: int)
    requires
        0 <= last < starts.len(),
        0 <= n <= starts.len(),
        forall|i: int, j: int| 0 <= i < j < starts.len() ==> #[trigger] starts[i] < #[trigger] starts[j],
        starts[last] <= byte,
        last + 1 < starts.len() ==> byte < starts[last + 1],
    ensures
        lines_upto(starts, byte, n) == if n <= last + 1 {
            n
        } else {
            last + 1
        },
    decreases n,
{
    if n > 0 {
        lemma_lines_upto(starts, byte, last, n - 1);
        if n - 1 > last + 1 {
            assert(starts[last + 1] < starts[n - 1]);
        }
        if n - 1 < last {
            assert(starts[n - 1] < starts[last]);
        }
    }
}

/// A source text together with the cache of its line starts, which is
/// filled on first use. Neither can be replaced once the source is made.
#[derive(Debug)]
pub struct Source<'a> {
    text: &'a str,
    line_starts: OnceCell<Vec<usize>>,
}

/// `OnceCell::get_or_init` on the cell of `src`: it hands out the vector that
/// the cell holds, after filling an empty cell with `compute_line_starts` of
/// the source's text. Both fields are private; the cell is made empty by
/// `Source::new` and filled by this call alone, so what it holds is the line
/// starts of that text.
#[verifier::external_body]
fn cached_line_starts<'a, 'b>(src: &'b Source<'a>) -> (r: &'b Vec<usize>)
    ensures
        r@ == line_starts_spec(src.text@),
{
    src.line_starts.get_or_init(|| compute_line_starts(src.text))
}

impl<'a> View for Source<'a> {
    type V = Seq<char>;

    /// A source is seen as the characters of its text.
    closed spec fn view(&self) -> Seq<char> {
        self.text@
    }
}

impl<'a> Source<'a> {
    /// A source over `text`; its line starts are not computed yet.
    pub fn new(text: &'a str) -> (r: Source<'a>)
        ensures
            r@ == text@,
    {
        Source { text, line_starts: OnceCell::new() }
    }

    /// The text of the source.
    pub fn text(&self) -> (r: &'a str)
        ensures
            r@ == self@,
    {
        self.text
    }

    /// The byte offset at which each line starts.
    pub fn line_starts(&self) -> (r: &Vec<usize>)
        ensures
            r@ == line_starts_spec(self@),
    {
        cached_line_starts(self)
    }

    /// The line and the column of a byte offset, both counted from 1.
    pub fn line_col(&self, byte: usize) -> (r: (usize, usize))
        requires
            byte < usize::MAX,
        ensures
            (r.0 as int, r.1 as int) == spec_line_col(self@, byte),
    {
        let bytes: usize = byte_len(self.text);
        let starts = self.line_starts();
        proof {
            assert(utf8_len(self@) == bytes);
            lemma_line_starts_sorted(self@, self@.len() as int);
        }
        let mut lo: usize = 0;
        let mut hi: usize = starts.len();
        while hi - lo > 1
            invariant
                starts@ == line_starts_spec(self@),
                0 <= lo < hi <= starts.len(),
                starts[lo as int] <= byte,
                hi < starts.len() ==> byte < starts[hi as int],
                forall|i: int, j: int| 0 <= i < j < starts@.len() ==> #[trigger] starts@[i] < #[trigger] starts@[j],
            decreases hi - lo,
        {
            let mid: usize = lo + (hi - lo) / 2;
            if starts[mid] <= byte {
                lo = mid;
            } else {
                hi = mid;
            }
        }
        proof {
            lemma_lines_upto(starts@, byte, lo as int, starts@.len() as int);
        }
        (lo + 1, byte - starts[lo] + 1)
    }
}

} // verus!
