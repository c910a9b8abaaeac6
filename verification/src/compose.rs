//! From a text, a width and a search text to the rows that are drawn.

use crate::highlight::fragments_of;
use crate::highlight::joined;
use crate::highlight::lemma_pieces_keep_text;
use crate::highlight::mark;
use crate::highlight::pieces;
use crate::highlight::Fragment;
use crate::highlight::FragmentView;
use crate::wrap::line_text;
use crate::wrap::ranges_of;
use crate::wrap::wrap;
use crate::wrap::wrapped;
use crate::wrap::wrapped_height;
use vstd::prelude::*;
use vstd::slice::slice_subrange;
use vstd::std_specs::iter::IteratorSpec;

verus! {

/// One row of the display: the pieces of a wrapped line, from left to right.
#[derive(Debug, Clone, PartialEq, Eq)]
pub struct DisplayLine {
    /// The pieces of the row.
    pub spans: Vec<Fragment>,
}

impl View for DisplayLine {
    type V = Seq<FragmentView>;

    open spec fn view(&self) -> Seq<FragmentView> {
        fragments_of(self.spans@)
    }
}

/// A list of rows, each read as its mathematical value.
pub open spec fn rows_of(v: Seq<DisplayLine>) -> Seq<Seq<FragmentView>> {
    v.map_values(|l: DisplayLine| l@)
}

/// The rows of `s` at `w` cells, with the occurrences of `q` marked: one row
/// for each wrapped line, cut into its pieces.
pub open spec fn composed(s: Seq<char>, w: int, q: Seq<char>) -> Seq<Seq<FragmentView>> {
    wrapped(s, w).map_values(|r: (int, int)| pieces(line_text(s, r), q))
}

/// The characters of each row, its pieces put together.
pub open spec fn row_texts(rows: Seq<Seq<FragmentView>>) -> Seq<Seq<char>> {
    rows.map_values(|row: Seq<FragmentView>| joined(row))
}

/// The characters of each wrapped line of `s` at `w` cells.
pub open spec fn wrapped_texts(s: Seq<char>, w: int) -> Seq<Seq<char>> {
    wrapped(s, w).map_values(|r: (int, int)| line_text(s, r))
}

/// Height and rows agree: a text has as many rows as its height says,
/// whatever is searched for.
pub proof fn lemma_height_counts_rows(s: Seq<char>, w: int, q: Seq<char>)
    ensures
        composed(s, w, q).len() == wrapped_height(s, w),
        composed(s, w, Seq::empty()).len() == wrapped_height(s, w),
{
}

/// Marking changes no character: the rows of a text read the same for every
/// search text, namely as the wrapped lines of the text.
pub proof fn lemma_marking_keeps_text(s: Seq<char>, w: int, q: Seq<char>)
    requires
        w >= 1,
    ensures
        row_texts(composed(s, w, q)) == wrapped_texts(s, w),
        row_texts(composed(s, w, q)) == row_texts(composed(s, w, Seq::empty())),
{
    crate::wrap::lemma_lines_fit(s, 0, w);
    let lines = wrapped(s, w);
    assert forall|k: int| 0 <= k < lines.len() implies #[trigger] row_texts(composed(s, w, q))[k]
        == wrapped_texts(s, w)[k] && row_texts(composed(s, w, Seq::empty()))[k] == wrapped_texts(
        s,
        w,
    )[k] by {
        let t = line_text(s, lines[k]);
        assert(crate::wrap::fits(lines[k], 0, s.len() as int, w));
        lemma_pieces_keep_text(t, q, 0);
        lemma_pieces_keep_text(t, Seq::empty(), 0);
        assert(t.subrange(0, t.len() as int) =~= t);
    }
    assert(row_texts(composed(s, w, q)) =~= wrapped_texts(s, w));
    assert(row_texts(composed(s, w, Seq::empty())) =~= wrapped_texts(s, w));
}

/// The characters of `text`, one by one.
pub fn to_chars(text: &str) -> (chars: Vec<char>)
    ensures
        chars@ == text@,
{
    broadcast use vstd::string::axiom_spec_iter, vstd::string::next_postcondition;

    let mut chars: Vec<char> = Vec::new();
    let mut rest = text.chars();
    assert(chars@ + rest.remaining() =~= text@);
    loop
        invariant_except_break
            chars@ + rest.remaining() == text@,
        invariant
            rest.decrease() is Some,
        ensures
            chars@ == text@,
        decreases rest.decrease()->0,
    {
        let ghost before = rest.remaining();
        match rest.next() {
            Some(c) => {
                chars.push(c);
                assert(chars@ + rest.remaining() =~= text@);
            },
            None => {
                assert(chars@ + before =~= chars@);
                break ;
            },
        }
    }
    chars
}

/// The number of rows that `text` takes at `width` cells. It does not depend
/// on what is searched for.
pub fn height(text: &str, width: u16) -> (rows: usize)
    requires
        width >= 1,
    ensures
        rows == wrapped_height(text@, width as int),
        rows == composed(text@, width as int, Seq::empty()).len(),
        rows >= 1,
{
    let chars = to_chars(text);
    wrap(chars.as_slice(), width).len()
}

/// Wraps `text` to `width` cells and cuts each line into the occurrences of
/// `query` and the text between them.
pub fn compose(text: &str, width: u16, query: &str) -> (rows: Vec<DisplayLine>)
    requires
        width >= 1,
    ensures
        rows_of(rows@) == composed(text@, width as int, query@),
        rows@.len() == wrapped_height(text@, width as int),
{
    let chars = to_chars(text);
    let q = to_chars(query);
    let ranges = wrap(chars.as_slice(), width);
    let mut rows: Vec<DisplayLine> = Vec::new();
    let ghost whole = composed(text@, width as int, query@);
    let mut k: usize = 0;
    while k < ranges.len()
        invariant
            k <= ranges.len(),
            chars@ == text@,
            q@ == query@,
            ranges_of(ranges@) == wrapped(text@, width as int),
            forall|j: int|
                0 <= j < ranges@.len() ==> (#[trigger] ranges@[j]).0 <= ranges@[j].1
                    <= chars@.len(),
            whole == composed(text@, width as int, query@),
            rows@.len() == k,
            forall|j: int| 0 <= j < k ==> (#[trigger] rows@[j])@ == whole[j],
        decreases ranges.len() - k,
    {
        let range = ranges[k];
        let line = slice_subrange(chars.as_slice(), range.0, range.1);
        let spans = mark(line, q.as_slice());
        proof {
            assert(ranges_of(ranges@)[k as int] == (range.0 as int, range.1 as int));
            assert(line@ == line_text(text@, wrapped(text@, width as int)[k as int]));
        }
        rows.push(DisplayLine { spans });
        k += 1;
    }
    assert(rows_of(rows@) =~= whole);
    rows
}

} // verus!
