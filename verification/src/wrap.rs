//! Greedy word wrap of a text to a number of cells.
//!
//! A text is cut into paragraphs at its line feeds. A paragraph that is longer
//! than the width is cut at the last blank that still lets the line fit, or,
//! where a word alone is too long, at the width itself. Every line is a range
//! of the text: the blanks at which a paragraph is cut and the line feeds
//! belong to no line, every other character to exactly one. One character
//! takes one cell.

use vstd::prelude::*;

verus! {

/// The character at which a line may be cut.
pub const BLANK: char = ' ';

/// The character that ends a paragraph.
pub const LINE_FEED: char = '\n';

/// Index of the first line feed of `s` at or after `i`, or the length of `s`
/// where there is none.
pub open spec fn paragraph_end(s: Seq<char>, i: int) -> int
    decreases s.len() - i,
{
    if i >= s.len() {
        s.len() as int
    } else if s[i] == LINE_FEED {
        i
    } else {
        paragraph_end(s, i + 1)
    }
}

/// The greatest index in `(lo, hi]` at which `s` holds a blank, or `lo` where
/// it holds none there.
pub open spec fn last_blank(s: Seq<char>, lo: int, hi: int) -> int
    decreases hi - lo,
{
    if hi <= lo {
        lo
    } else if s[hi] == BLANK {
        hi
    } else {
        last_blank(s, lo, hi - 1)
    }
}

/// Where the line that starts at `i` ends, when more than `w` characters are
/// left in its paragraph: at the last blank among the `w` positions after
/// `i`, or after `w` characters where none of them is a blank.
pub open spec fn line_end(s: Seq<char>, i: int, w: int) -> int {
    let b = last_blank(s, i, i + w);
    if b > i {
        b
    } else {
        i + w
    }
}

/// Index of the first character in `[i, end)` that is no blank, or `end`.
pub open spec fn skip_blanks(s: Seq<char>, i: int, end: int) -> int
    decreases end - i,
{
    if i >= end {
        end
    } else if s[i] == BLANK {
        skip_blanks(s, i + 1, end)
    } else {
        i
    }
}

/// The lines of the paragraph part `[i, end)` at width `w`, each as the range
/// of `s` that it shows.
pub open spec fn paragraph_lines(s: Seq<char>, i: int, end: int, w: int) -> Seq<(int, int)>
    decreases end - i,
{
    if w < 1 || end - i <= w {
        seq![(i, end)]
    } else {
        let b = line_end(s, i, w);
        let next = skip_blanks(s, b, end);
        proof {
            lemma_last_blank_bounds(s, i, i + w);
            lemma_skip_blanks_bounds(s, b, end);
        }
        if next >= end {
            seq![(i, b)]
        } else {
            seq![(i, b)] + paragraph_lines(s, next, end, w)
        }
    }
}

/// The lines of the text from position `i` on, paragraph after paragraph.
pub open spec fn lines_from(s: Seq<char>, i: int, w: int) -> Seq<(int, int)>
    decreases s.len() - i,
{
    let end = paragraph_end(s, i);
    proof {
        lemma_paragraph_end_bounds(s, i);
    }
    if end >= s.len() {
        paragraph_lines(s, i, end, w)
    } else {
        paragraph_lines(s, i, end, w) + lines_from(s, end + 1, w)
    }
}

/// The lines of `s` wrapped to `w` cells, each as the range of `s` that it
/// shows.
pub open spec fn wrapped(s: Seq<char>, w: int) -> Seq<(int, int)> {
    lines_from(s, 0, w)
}

/// The number of rows that `s` takes at `w` cells.
pub open spec fn wrapped_height(s: Seq<char>, w: int) -> nat {
    wrapped(s, w).len()
}

/// The characters of the line `range` of `s`.
pub open spec fn line_text(s: Seq<char>, range: (int, int)) -> Seq<char> {
    s.subrange(range.0, range.1)
}

/// A list of index pairs, read as mathematical ranges.
pub open spec fn ranges_of(v: Seq<(usize, usize)>) -> Seq<(int, int)> {
    v.map_values(|r: (usize, usize)| (r.0 as int, r.1 as int))
}

/// `paragraph_end` stays within the text and does not go back.
pub proof fn lemma_paragraph_end_bounds(s: Seq<char>, i: int)
    ensures
        paragraph_end(s, i) <= s.len(),
        i <= s.len() ==> i <= paragraph_end(s, i),
        paragraph_end(s, i) < s.len() ==> s[paragraph_end(s, i)] == LINE_FEED,
        forall|k: int| i <= k < paragraph_end(s, i) ==> s[k] != LINE_FEED,
    decreases s.len() - i,
{
    if i < s.len() && s[i] != LINE_FEED {
        lemma_paragraph_end_bounds(s, i + 1);
    }
}

/// `last_blank` stays within `[lo, hi]`, and names a blank unless it is `lo`.
pub proof fn lemma_last_blank_bounds(s: Seq<char>, lo: int, hi: int)
    requires
        lo <= hi,
    ensures
        lo <= last_blank(s, lo, hi) <= hi,
        last_blank(s, lo, hi) > lo ==> s[last_blank(s, lo, hi)] == BLANK,
        forall|k: int| last_blank(s, lo, hi) < k <= hi ==> s[k] != BLANK,
    decreases hi - lo,
{
    if hi > lo && s[hi] != BLANK {
        lemma_last_blank_bounds(s, lo, hi - 1);
    }
}

/// `skip_blanks` stays within `[i, end]` and passes blanks only.
pub proof fn lemma_skip_blanks_bounds(s: Seq<char>, i: int, end: int)
    requires
        i <= end,
    ensures
        i <= skip_blanks(s, i, end) <= end,
        skip_blanks(s, i, end) < end ==> s[skip_blanks(s, i, end)] != BLANK,
        forall|k: int| i <= k < skip_blanks(s, i, end) ==> s[k] == BLANK,
    decreases end - i,
{
    if i < end && s[i] == BLANK {
        lemma_skip_blanks_bounds(s, i + 1, end);
    }
}

/// Whether `r` is a range of `s` of at most `w` characters that lies in
/// `[lo, hi]`.
pub open spec fn fits(r: (int, int), lo: int, hi: int, w: int) -> bool {
    lo <= r.0 <= r.1 <= hi && r.1 - r.0 <= w
}

/// A paragraph part has at least one line, and each of its lines is a range
/// of the part that is at most `w` characters long.
pub proof fn lemma_paragraph_lines_fit(s: Seq<char>, i: int, end: int, w: int)
    requires
        w >= 1,
        0 <= i <= end <= s.len(),
    ensures
        paragraph_lines(s, i, end, w).len() >= 1,
        forall|k: int|
            0 <= k < paragraph_lines(s, i, end, w).len() ==> fits(
                #[trigger] paragraph_lines(s, i, end, w)[k],
                i,
                end,
                w,
            ),
    decreases end - i,
{
    let all = paragraph_lines(s, i, end, w);
    if end - i > w {
        let b = line_end(s, i, w);
        let next = skip_blanks(s, b, end);
        lemma_last_blank_bounds(s, i, i + w);
        lemma_skip_blanks_bounds(s, b, end);
        if next < end {
            let rest = paragraph_lines(s, next, end, w);
            lemma_paragraph_lines_fit(s, next, end, w);
            assert forall|k: int| 0 <= k < all.len() implies fits(#[trigger] all[k], i, end, w) by {
                if k >= 1 {
                    assert(all[k] == rest[k - 1]);
                }
            }
        }
    }
}

/// A text has at least one line from any position on, and each of these
/// lines is a range of the text that is at most `w` characters long.
pub proof fn lemma_lines_fit(s: Seq<char>, i: int, w: int)
    requires
        w >= 1,
        0 <= i <= s.len(),
    ensures
        lines_from(s, i, w).len() >= 1,
        forall|k: int|
            0 <= k < lines_from(s, i, w).len() ==> fits(
                #[trigger] lines_from(s, i, w)[k],
                i,
                s.len() as int,
                w,
            ),
    decreases s.len() - i,
{
    let all = lines_from(s, i, w);
    let end = paragraph_end(s, i);
    lemma_paragraph_end_bounds(s, i);
    let para = paragraph_lines(s, i, end, w);
    lemma_paragraph_lines_fit(s, i, end, w);
    if end < s.len() {
        let rest = lines_from(s, end + 1, w);
        lemma_lines_fit(s, end + 1, w);
        assert forall|k: int| 0 <= k < all.len() implies fits(
            #[trigger] all[k],
            i,
            s.len() as int,
            w,
        ) by {
            if k >= para.len() {
                assert(all[k] == rest[k - para.len()]);
            } else {
                assert(all[k] == para[k]);
            }
        }
    }
}

/// Whether `s` holds nothing but blanks and line feeds in `[from, to)`.
pub open spec fn only_breaks(s: Seq<char>, from: int, to: int) -> bool {
    forall|k: int| from <= k < to ==> s[k] == BLANK || s[k] == LINE_FEED
}

/// Whether the ranges `lines` take up `[from, to)` in order, beginning at
/// `from` and leaving out nothing but blanks and line feeds.
pub open spec fn covers(s: Seq<char>, lines: Seq<(int, int)>, from: int, to: int) -> bool {
    &&& lines.len() >= 1
    &&& lines[0].0 == from
    &&& forall|k: int| 0 <= k < lines.len() ==> (#[trigger] lines[k]).0 <= lines[k].1
    &&& forall|k: int|
        0 <= k < lines.len() - 1 ==> (#[trigger] lines[k]).1 <= lines[k + 1].0 && only_breaks(
            s,
            lines[k].1,
            lines[k + 1].0,
        )
    &&& lines.last().1 <= to
    &&& only_breaks(s, lines.last().1, to)
}

/// Ranges that take up `[from, mid)` and ranges that take up `[next, to)`
/// take up `[from, to)` together, where nothing but blanks and line feeds
/// lies in `[mid, next)`.
pub proof fn lemma_covers_joined(
    s: Seq<char>,
    a: Seq<(int, int)>,
    b: Seq<(int, int)>,
    from: int,
    mid: int,
    next: int,
    to: int,
)
    requires
        covers(s, a, from, mid),
        covers(s, b, next, to),
        mid <= next,
        only_breaks(s, mid, next),
    ensures
        covers(s, a + b, from, to),
{
    let all = a + b;
    assert(all[0] == a[0]);
    assert(all.last() == b.last());
    assert forall|k: int| 0 <= k < all.len() implies (#[trigger] all[k]).0 <= all[k].1 by {
        if k < a.len() {
            assert(all[k] == a[k]);
        } else {
            assert(all[k] == b[k - a.len()]);
        }
    }
    assert forall|k: int| 0 <= k < all.len() - 1 implies (#[trigger] all[k]).1 <= all[k + 1].0
        && only_breaks(s, all[k].1, all[k + 1].0) by {
        if k + 1 < a.len() {
            assert(all[k] == a[k]);
            assert(all[k + 1] == a[k + 1]);
        } else if k + 1 == a.len() {
            assert(all[k] == a.last());
            assert(all[k + 1] == b[0]);
        } else {
            assert(all[k] == b[k - a.len()]);
            assert(all[k + 1] == b[k - a.len() + 1]);
        }
    }
}

/// The lines of a paragraph part take it up in order and leave out nothing
/// but blanks.
pub proof fn lemma_paragraph_lines_cover(s: Seq<char>, i: int, end: int, w: int)
    requires
        w >= 1,
        0 <= i <= end <= s.len(),
    ensures
        covers(s, paragraph_lines(s, i, end, w), i, end),
    decreases end - i,
{
    if end - i > w {
        let b = line_end(s, i, w);
        let next = skip_blanks(s, b, end);
        lemma_last_blank_bounds(s, i, i + w);
        lemma_skip_blanks_bounds(s, b, end);
        let head = seq![(i, b)];
        if next < end {
            assert(covers(s, head, i, b));
            lemma_paragraph_lines_cover(s, next, end, w);
            lemma_covers_joined(s, head, paragraph_lines(s, next, end, w), i, b, next, end);
        }
    }
}

/// The lines of a text take it up in order and leave out nothing but the
/// blanks at which a paragraph is cut and the line feeds.
pub proof fn lemma_lines_cover(s: Seq<char>, i: int, w: int)
    requires
        w >= 1,
        0 <= i <= s.len(),
    ensures
        covers(s, lines_from(s, i, w), i, s.len() as int),
    decreases s.len() - i,
{
    let end = paragraph_end(s, i);
    lemma_paragraph_end_bounds(s, i);
    lemma_paragraph_lines_cover(s, i, end, w);
    if end < s.len() {
        lemma_lines_cover(s, end + 1, w);
        lemma_covers_joined(
            s,
            paragraph_lines(s, i, end, w),
            lines_from(s, end + 1, w),
            i,
            end,
            end + 1,
            s.len() as int,
        );
    }
}

/// No line of a text holds a line feed.
pub proof fn lemma_lines_hold_no_line_feed(s: Seq<char>, i: int, w: int)
    requires
        w >= 1,
        0 <= i <= s.len(),
    ensures
        forall|k: int, j: int|
            0 <= k < lines_from(s, i, w).len() && (#[trigger] lines_from(s, i, w)[k]).0 <= j
                < lines_from(s, i, w)[k].1 ==> #[trigger] s[j] != LINE_FEED,
    decreases s.len() - i,
{
    let all = lines_from(s, i, w);
    let end = paragraph_end(s, i);
    lemma_paragraph_end_bounds(s, i);
    let para = paragraph_lines(s, i, end, w);
    lemma_paragraph_lines_fit(s, i, end, w);
    if end < s.len() {
        lemma_lines_hold_no_line_feed(s, end + 1, w);
    }
    assert forall|k: int, j: int| 0 <= k < all.len() && (#[trigger] all[k]).0 <= j < all[k].1
        implies #[trigger] s[j] != LINE_FEED by {
        if k < para.len() {
            assert(all[k] == para[k]);
            assert(fits(para[k], i, end, w));
        } else {
            assert(all[k] == lines_from(s, end + 1, w)[k - para.len()]);
        }
    }
}

/// Whether no line feed lies between the line `line` and the line `next`.
pub open spec fn same_paragraph(s: Seq<char>, line: (int, int), next: (int, int)) -> bool {
    forall|j: int| line.1 <= j < next.0 ==> s[j] != LINE_FEED
}

/// Whether the word with which the line `next` begins would not have fitted
/// into the line `line`: from the start of `next` to the cell behind the
/// width of `line` the text holds neither a blank nor a line feed.
pub open spec fn next_word_too_long(s: Seq<char>, line: (int, int), next: (int, int), w: int) -> bool {
    &&& line.0 + w < s.len()
    &&& forall|j: int| next.0 <= j <= line.0 + w ==> s[j] != BLANK && s[j] != LINE_FEED
}

/// A paragraph is cut only where the next word does not fit.
pub proof fn lemma_paragraph_lines_greedy(s: Seq<char>, i: int, end: int, w: int)
    requires
        w >= 1,
        0 <= i <= end <= s.len(),
        forall|j: int| i <= j < end ==> s[j] != LINE_FEED,
    ensures
        forall|k: int|
            0 <= k < paragraph_lines(s, i, end, w).len() - 1 ==> next_word_too_long(
                s,
                #[trigger] paragraph_lines(s, i, end, w)[k],
                paragraph_lines(s, i, end, w)[k + 1],
                w,
            ),
    decreases end - i,
{
    let all = paragraph_lines(s, i, end, w);
    if end - i > w {
        let b = line_end(s, i, w);
        let next = skip_blanks(s, b, end);
        lemma_last_blank_bounds(s, i, i + w);
        lemma_skip_blanks_bounds(s, b, end);
        if next < end {
            let rest = paragraph_lines(s, next, end, w);
            lemma_paragraph_lines_greedy(s, next, end, w);
            lemma_paragraph_lines_cover(s, next, end, w);
            assert forall|k: int| 0 <= k < all.len() - 1 implies next_word_too_long(
                s,
                #[trigger] all[k],
                all[k + 1],
                w,
            ) by {
                if k == 0 {
                    assert(all[0] == (i, b));
                    assert(all[1] == rest[0]);
                } else {
                    assert(all[k] == rest[k - 1]);
                    assert(all[k + 1] == rest[k]);
                }
            }
        }
    }
}

/// A text is cut inside a paragraph only where the next word does not fit.
pub proof fn lemma_lines_greedy(s: Seq<char>, i: int, w: int)
    requires
        w >= 1,
        0 <= i <= s.len(),
    ensures
        forall|k: int|
            0 <= k < lines_from(s, i, w).len() - 1 && same_paragraph(
                s,
                #[trigger] lines_from(s, i, w)[k],
                lines_from(s, i, w)[k + 1],
            ) ==> next_word_too_long(s, lines_from(s, i, w)[k], lines_from(s, i, w)[k + 1], w),
    decreases s.len() - i,
{
    let all = lines_from(s, i, w);
    let end = paragraph_end(s, i);
    lemma_paragraph_end_bounds(s, i);
    let para = paragraph_lines(s, i, end, w);
    lemma_paragraph_lines_greedy(s, i, end, w);
    lemma_paragraph_lines_fit(s, i, end, w);
    if end < s.len() {
        let rest = lines_from(s, end + 1, w);
        lemma_lines_greedy(s, end + 1, w);
        lemma_lines_cover(s, end + 1, w);
        assert forall|k: int|
            0 <= k < all.len() - 1 && same_paragraph(s, #[trigger] all[k], all[k + 1])
                implies next_word_too_long(s, all[k], all[k + 1], w) by {
            if k + 1 < para.len() {
                assert(all[k] == para[k]);
                assert(all[k + 1] == para[k + 1]);
            } else if k + 1 == para.len() {
                assert(all[k] == para[k]);
                assert(all[k + 1] == rest[0]);
                assert(fits(para[k], i, end, w));
                assert(s[end] == LINE_FEED);
            } else {
                assert(all[k] == rest[k - para.len()]);
                assert(all[k + 1] == rest[k - para.len() + 1]);
            }
        }
    }
}

/// What wrapping does: a text wrapped to at least one cell has at least one
/// line; its lines follow one another in the text, none is longer than the
/// width, none holds a line feed, what lies between them is blanks and line
/// feeds only, and inside a paragraph a new line begins only with a word
/// that did not fit into the line before.
pub proof fn lemma_wrapped_shape(s: Seq<char>, w: int)
    requires
        w >= 1,
    ensures
        covers(s, wrapped(s, w), 0, s.len() as int),
        forall|k: int|
            0 <= k < wrapped(s, w).len() ==> fits(#[trigger] wrapped(s, w)[k], 0, s.len() as int, w),
        forall|k: int, j: int|
            0 <= k < wrapped(s, w).len() && (#[trigger] wrapped(s, w)[k]).0 <= j < wrapped(
                s,
                w,
            )[k].1 ==> #[trigger] s[j] != LINE_FEED,
        forall|k: int|
            0 <= k < wrapped(s, w).len() - 1 && same_paragraph(
                s,
                #[trigger] wrapped(s, w)[k],
                wrapped(s, w)[k + 1],
            ) ==> next_word_too_long(s, wrapped(s, w)[k], wrapped(s, w)[k + 1], w),
{
    lemma_lines_greedy(s, 0, w);
    lemma_lines_cover(s, 0, w);
    lemma_lines_fit(s, 0, w);
    lemma_lines_hold_no_line_feed(s, 0, w);
}

/// Finds the end of the paragraph that starts at `i`.
pub fn find_paragraph_end(s: &[char], i: usize) -> (end: usize)
    requires
        i <= s.len(),
    ensures
        end as int == paragraph_end(s@, i as int),
        i <= end <= s.len(),
{
    let mut k: usize = i;
    while k < s.len() && s[k] != LINE_FEED
        invariant
            i <= k <= s.len(),
            paragraph_end(s@, k as int) == paragraph_end(s@, i as int),
        decreases s.len() - k,
    {
        k += 1;
    }
    proof {
        lemma_paragraph_end_bounds(s@, k as int);
    }
    k
}

/// Finds where the line that starts at `i` ends, in a paragraph that holds
/// more than `w` characters from `i` on.
pub fn find_line_end(s: &[char], i: usize, w: u16) -> (end: usize)
    requires
        w >= 1,
        i + w < s.len(),
    ensures
        end as int == line_end(s@, i as int, w as int),
        i < end <= i + w,
{
    let hi: usize = i + w as usize;
    let mut k: usize = hi;
    while k > i && s[k] != BLANK
        invariant
            i <= k <= hi,
            hi == i + w,
            hi < s.len(),
            last_blank(s@, i as int, k as int) == last_blank(s@, i as int, hi as int),
        decreases k - i,
    {
        k -= 1;
    }
    proof {
        lemma_last_blank_bounds(s@, i as int, k as int);
    }
    if k > i {
        k
    } else {
        hi
    }
}

/// Finds the first character in `[i, end)` that is no blank.
pub fn find_next_word(s: &[char], i: usize, end: usize) -> (next: usize)
    requires
        i <= end <= s.len(),
    ensures
        next as int == skip_blanks(s@, i as int, end as int),
        i <= next <= end,
{
    let mut k: usize = i;
    while k < end && s[k] == BLANK
        invariant
            i <= k <= end,
            end <= s.len(),
            skip_blanks(s@, k as int, end as int) == skip_blanks(s@, i as int, end as int),
        decreases end - k,
    {
        k += 1;
    }
    proof {
        lemma_skip_blanks_bounds(s@, k as int, end as int);
    }
    k
}

/// Appends the lines of the paragraph part `[i, end)` to `lines`.
pub fn wrap_paragraph(s: &[char], i: usize, end: usize, w: u16, lines: &mut Vec<(usize, usize)>)
    requires
        w >= 1,
        i <= end <= s.len(),
    ensures
        ranges_of(final(lines)@) == ranges_of(old(lines)@) + paragraph_lines(
            s@,
            i as int,
            end as int,
            w as int,
        ),
{
    let mut at: usize = i;
    let ghost before = ranges_of(lines@);
    let ghost whole = paragraph_lines(s@, i as int, end as int, w as int);
    loop
        invariant_except_break
            ranges_of(lines@) + paragraph_lines(s@, at as int, end as int, w as int) == before
                + whole,
        invariant
            w >= 1,
            i <= at <= end <= s.len(),
        ensures
            ranges_of(lines@) == before + whole,
        decreases end - at,
    {
        let ghost rest = paragraph_lines(s@, at as int, end as int, w as int);
        let ghost sofar = ranges_of(lines@);
        if end - at <= w as usize {
            lines.push((at, end));
            proof {
                assert(ranges_of(lines@) =~= sofar + rest);
            }
            break ;
        }
        let b: usize = find_line_end(s, at, w);
        let next: usize = find_next_word(s, b, end);
        lines.push((at, b));
        if next >= end {
            proof {
                assert(ranges_of(lines@) =~= sofar + rest);
            }
            break ;
        }
        proof {
            let tail = paragraph_lines(s@, next as int, end as int, w as int);
            assert(rest == seq![(at as int, b as int)] + tail);
            assert(ranges_of(lines@) + tail =~= sofar + rest);
        }
        at = next;
    }
}

/// Wraps `s` to `w` cells and returns the range of each line.
pub fn wrap(s: &[char], w: u16) -> (lines: Vec<(usize, usize)>)
    requires
        w >= 1,
    ensures
        ranges_of(lines@) == wrapped(s@, w as int),
        lines@.len() == wrapped_height(s@, w as int),
        lines@.len() >= 1,
        forall|k: int|
            0 <= k < lines@.len() ==> (#[trigger] lines@[k]).0 <= lines@[k].1 <= s@.len()
                && lines@[k].1 - lines@[k].0 <= w,
{
    let mut lines: Vec<(usize, usize)> = Vec::new();
    let mut at: usize = 0;
    let ghost whole = wrapped(s@, w as int);
    assert(ranges_of(lines@) =~= Seq::<(int, int)>::empty());
    loop
        invariant_except_break
            ranges_of(lines@) + lines_from(s@, at as int, w as int) == whole,
        invariant
            w >= 1,
            at <= s.len(),
        ensures
            ranges_of(lines@) == whole,
        decreases s.len() - at,
    {
        let ghost sofar = ranges_of(lines@);
        let ghost rest = lines_from(s@, at as int, w as int);
        let end: usize = find_paragraph_end(s, at);
        wrap_paragraph(s, at, end, w, &mut lines);
        if end >= s.len() {
            break ;
        }
        proof {
            let para = paragraph_lines(s@, at as int, end as int, w as int);
            let tail = lines_from(s@, end + 1, w as int);
            assert(rest == para + tail);
            assert(ranges_of(lines@) + tail =~= sofar + rest);
        }
        at = end + 1;
    }
    proof {
        lemma_lines_fit(s@, 0, w as int);
        assert forall|k: int| 0 <= k < lines@.len() implies (#[trigger] lines@[k]).0
            <= lines@[k].1 <= s@.len() && lines@[k].1 - lines@[k].0 <= w by {
            assert(fits(wrapped(s@, w as int)[k], 0, s@.len() as int, w as int));
            assert(ranges_of(lines@)[k] == (lines@[k].0 as int, lines@[k].1 as int));
        }
    }
    lines
}

} // verus!
