//! Which entries are drawn: the window of the list.
//!
//! The window is a run of entries `[start, end)` together with a count of
//! the rows that it is taken to fill. It is filled from the scroll position
//! down to the height of the viewport, then slid down or up until it holds
//! the selected entry. The last entry of a filled window may stick out of the
//! viewport; it then counts only with the rows that fit, so that the count
//! may stay behind the rows that the entries of the window really take.

use crate::item::heights;
use crate::item::LogListItem;
use vstd::prelude::*;

verus! {

/// A run of entries and the rows that are counted for it.
pub struct Window {
    /// Index of the first entry of the window.
    pub start: int,
    /// Index behind the last entry of the window.
    pub end: int,
    /// The rows that the window is taken to fill.
    pub rows: int,
}

/// The rows that the entries `[from, to)` take together.
pub open spec fn rows_between(h: Seq<nat>, from: int, to: int) -> int
    decreases to - from,
{
    if from >= to {
        0
    } else {
        rows_between(h, from, to - 1) + h[to - 1]
    }
}

/// `rows` without `taken`, but not less than nothing.
pub open spec fn rows_less(rows: int, taken: int) -> int {
    if rows >= taken {
        rows - taken
    } else {
        0
    }
}

/// A window inside the list whose count does not exceed the rows of its
/// entries.
pub open spec fn sound(h: Seq<nat>, w: Window) -> bool {
    &&& 0 <= w.start <= w.end <= h.len()
    &&& 0 <= w.rows <= rows_between(h, w.start, w.end)
}

/// The window `w` grown downwards until the viewport of `limit` rows is
/// full or the list ends. An entry that fits only in part is taken in, and
/// the count then stands at `limit`.
pub open spec fn filled(h: Seq<nat>, w: Window, limit: int) -> Window
    decreases h.len() - w.end,
{
    if w.end >= h.len() {
        w
    } else if w.rows + h[w.end] > limit {
        if w.rows != limit {
            Window { end: w.end + 1, rows: limit, ..w }
        } else {
            w
        }
    } else {
        filled(h, Window { end: w.end + 1, rows: w.rows + h[w.end], ..w }, limit)
    }
}

/// The window `w` with entries dropped at its top until its count is at
/// most `limit` or no entry is left.
pub open spec fn trimmed_top(h: Seq<nat>, w: Window, limit: int) -> Window
    decreases w.end - w.start,
{
    if w.rows > limit && w.start < w.end {
        trimmed_top(
            h,
            Window { start: w.start + 1, rows: rows_less(w.rows, h[w.start] as int), ..w },
            limit,
        )
    } else {
        w
    }
}

/// The window `w` with entries dropped at its bottom until its count is at
/// most `limit` or no entry is left.
pub open spec fn trimmed_bottom(h: Seq<nat>, w: Window, limit: int) -> Window
    decreases w.end - w.start,
{
    if w.rows > limit && w.start < w.end {
        trimmed_bottom(
            h,
            Window { end: w.end - 1, rows: rows_less(w.rows, h[w.end - 1] as int), ..w },
            limit,
        )
    } else {
        w
    }
}

/// The window `w` with the entry below it taken in.
pub open spec fn grown_down(h: Seq<nat>, w: Window) -> Window {
    Window { end: w.end + 1, rows: w.rows + h[w.end], ..w }
}

/// The window `w` with the entry above it taken in.
pub open spec fn grown_up(h: Seq<nat>, w: Window) -> Window {
    Window { start: w.start - 1, rows: w.rows + h[w.start - 1], ..w }
}

/// The window `w` slid down, entry by entry, until it holds `selected`:
/// after each entry that is taken in at the bottom, entries are dropped at
/// the top while the count exceeds `limit`.
pub open spec fn advanced(h: Seq<nat>, w: Window, limit: int, selected: int) -> Window
    decreases selected - w.end + 1,
{
    if selected >= w.end {
        proof {
            lemma_trimmed_top_keeps_end(h, grown_down(h, w), limit);
        }
        advanced(h, trimmed_top(h, grown_down(h, w), limit), limit, selected)
    } else {
        w
    }
}

/// The window `w` slid up, entry by entry, until it starts at `selected` or
/// above: after each entry that is taken in at the top, entries are dropped
/// at the bottom while the count exceeds `limit`.
pub open spec fn retreated(h: Seq<nat>, w: Window, limit: int, selected: int) -> Window
    decreases w.start - selected,
{
    if selected < w.start {
        proof {
            lemma_trimmed_bottom_keeps_start(h, grown_up(h, w), limit);
        }
        retreated(h, trimmed_bottom(h, grown_up(h, w), limit), limit, selected)
    } else {
        w
    }
}

/// The entry that counts as selected in a list of `len` entries: the first
/// one where nothing is selected, the last one where the selection lies
/// behind the list.
pub open spec fn clamped(selected: Option<nat>, len: nat) -> int {
    let wanted = match selected {
        Some(i) => i as int,
        None => 0,
    };
    if wanted < len - 1 {
        wanted
    } else {
        len - 1
    }
}

/// The window that is drawn: filled from `offset`, then slid until it holds
/// the selected entry.
pub open spec fn window(h: Seq<nat>, offset: int, selected: Option<nat>, limit: int) -> Window {
    let chosen = clamped(selected, h.len());
    let first = first_fill(h, offset, limit);
    retreated(h, advanced(h, first, limit, chosen), limit, chosen)
}

/// Dropping entries at the top moves neither the end of the window nor its
/// start upwards.
pub proof fn lemma_trimmed_top_keeps_end(h: Seq<nat>, w: Window, limit: int)
    ensures
        trimmed_top(h, w, limit).end == w.end,
        trimmed_top(h, w, limit).start >= w.start,
    decreases w.end - w.start,
{
    if w.rows > limit && w.start < w.end {
        lemma_trimmed_top_keeps_end(
            h,
            Window { start: w.start + 1, rows: rows_less(w.rows, h[w.start] as int), ..w },
            limit,
        );
    }
}

/// Dropping entries at the bottom moves neither the start of the window nor
/// its end downwards.
pub proof fn lemma_trimmed_bottom_keeps_start(h: Seq<nat>, w: Window, limit: int)
    ensures
        trimmed_bottom(h, w, limit).start == w.start,
        trimmed_bottom(h, w, limit).end <= w.end,
    decreases w.end - w.start,
{
    if w.rows > limit && w.start < w.end {
        lemma_trimmed_bottom_keeps_start(
            h,
            Window { end: w.end - 1, rows: rows_less(w.rows, h[w.end - 1] as int), ..w },
            limit,
        );
    }
}

/// The rows of a run are the rows of its first entry and of the run behind
/// it.
pub proof fn lemma_rows_from_top(h: Seq<nat>, from: int, to: int)
    requires
        from < to,
    ensures
        rows_between(h, from, to) == h[from] + rows_between(h, from + 1, to),
    decreases to - from,
{
    if from + 1 < to {
        lemma_rows_from_top(h, from, to - 1);
    } else {
        assert(rows_between(h, from, to - 1) == 0);
        assert(rows_between(h, from + 1, to) == 0);
    }
}

/// A run takes no fewer rows than nothing.
pub proof fn lemma_rows_not_negative(h: Seq<nat>, from: int, to: int)
    ensures
        rows_between(h, from, to) >= 0,
    decreases to - from,
{
    if from < to {
        lemma_rows_not_negative(h, from, to - 1);
    }
}

/// A window whose count is the rows that its entries take.
pub open spec fn exact(h: Seq<nat>, w: Window) -> bool {
    w.rows == rows_between(h, w.start, w.end)
}

/// Every entry takes at least one row.
pub open spec fn all_positive(h: Seq<nat>) -> bool {
    forall|i: int| 0 <= i < h.len() ==> #[trigger] h[i] >= 1
}

/// Every entry of `[from, to)` starts less than `limit` rows below the
/// start of `from`.
pub open spec fn all_start_within(h: Seq<nat>, from: int, to: int, limit: int) -> bool {
    forall|k: int| from <= k < to ==> #[trigger] rows_between(h, from, k) < limit
}

/// Filling keeps the start of the window, keeps it sound, counts at most
/// `limit` rows, and takes in only entries that start inside the viewport.
pub proof fn lemma_filled_shape(h: Seq<nat>, w: Window, limit: int)
    requires
        sound(h, w),
        exact(h, w),
        w.rows <= limit,
        all_positive(h),
        all_start_within(h, w.start, w.end, limit),
    ensures
        filled(h, w, limit).start == w.start,
        w.end <= filled(h, w, limit).end,
        sound(h, filled(h, w, limit)),
        filled(h, w, limit).rows <= limit,
        all_start_within(h, w.start, filled(h, w, limit).end, limit),
    decreases h.len() - w.end,
{
    if w.end < h.len() && w.rows + h[w.end] <= limit {
        let next = Window { end: w.end + 1, rows: w.rows + h[w.end], ..w };
        assert(all_start_within(h, next.start, next.end, limit)) by {
            assert(h[w.end] >= 1);
        }
        lemma_filled_shape(h, next, limit);
    }
}

/// The rows of the entries of a window that its count leaves out.
pub open spec fn behind(h: Seq<nat>, w: Window) -> int {
    rows_between(h, w.start, w.end) - w.rows
}

/// Dropping entries at the top does not let the count fall further behind.
pub proof fn lemma_trimmed_top_behind(h: Seq<nat>, w: Window, limit: int)
    requires
        sound(h, w),
    ensures
        behind(h, trimmed_top(h, w, limit)) <= behind(h, w),
    decreases w.end - w.start,
{
    if w.rows > limit && w.start < w.end {
        lemma_rows_from_top(h, w.start, w.end);
        lemma_rows_not_negative(h, w.start + 1, w.end);
        lemma_trimmed_top_behind(
            h,
            Window { start: w.start + 1, rows: rows_less(w.rows, h[w.start] as int), ..w },
            limit,
        );
    }
}

/// Sliding down to `selected` ends the window behind `selected` and does
/// not let the count fall further behind.
pub proof fn lemma_advanced_behind(h: Seq<nat>, w: Window, limit: int, selected: int)
    requires
        sound(h, w),
        w.rows <= limit,
        selected < h.len(),
    ensures
        behind(h, advanced(h, w, limit, selected)) <= behind(h, w),
        advanced(h, w, limit, selected).end == if selected >= w.end {
            selected + 1
        } else {
            w.end
        },
    decreases selected - w.end + 1,
{
    if selected >= w.end {
        let grown = grown_down(h, w);
        lemma_trimmed_top_behind(h, grown, limit);
        lemma_trimmed_top_sound(h, grown, limit);
        lemma_trimmed_top_keeps_end(h, grown, limit);
        lemma_advanced_behind(h, trimmed_top(h, grown, limit), limit, selected);
    }
}

/// Sliding a window up to `selected` puts its start at `selected`, unless it
/// started there or above.
pub proof fn lemma_retreated_start(h: Seq<nat>, w: Window, limit: int, selected: int)
    ensures
        retreated(h, w, limit, selected).start == if selected < w.start {
            selected
        } else {
            w.start
        },
    decreases w.start - selected,
{
    if selected < w.start {
        let grown = grown_up(h, w);
        lemma_trimmed_bottom_keeps_start(h, grown, limit);
        lemma_retreated_start(h, trimmed_bottom(h, grown, limit), limit, selected);
    }
}

/// Filling keeps a window sound and its count at or below `limit`.
pub proof fn lemma_filled_sound(h: Seq<nat>, w: Window, limit: int)
    requires
        sound(h, w),
        w.rows <= limit,
    ensures
        sound(h, filled(h, w, limit)),
        filled(h, w, limit).rows <= limit,
    decreases h.len() - w.end,
{
    if w.end < h.len() && w.rows + h[w.end] <= limit {
        lemma_filled_sound(h, Window { end: w.end + 1, rows: w.rows + h[w.end], ..w }, limit);
    }
}

/// Dropping entries at the top keeps a window sound and brings its count to
/// `limit` or below.
pub proof fn lemma_trimmed_top_sound(h: Seq<nat>, w: Window, limit: int)
    requires
        sound(h, w),
        limit >= 0,
    ensures
        sound(h, trimmed_top(h, w, limit)),
        trimmed_top(h, w, limit).rows <= limit,
    decreases w.end - w.start,
{
    if w.rows > limit && w.start < w.end {
        lemma_rows_from_top(h, w.start, w.end);
        lemma_rows_not_negative(h, w.start + 1, w.end);
        lemma_trimmed_top_sound(
            h,
            Window { start: w.start + 1, rows: rows_less(w.rows, h[w.start] as int), ..w },
            limit,
        );
    }
}

/// Dropping entries at the bottom keeps a window sound and brings its count
/// to `limit` or below.
pub proof fn lemma_trimmed_bottom_sound(h: Seq<nat>, w: Window, limit: int)
    requires
        sound(h, w),
        limit >= 0,
    ensures
        sound(h, trimmed_bottom(h, w, limit)),
        trimmed_bottom(h, w, limit).rows <= limit,
    decreases w.end - w.start,
{
    if w.rows > limit && w.start < w.end {
        lemma_rows_not_negative(h, w.start, w.end - 1);
        lemma_trimmed_bottom_sound(
            h,
            Window { end: w.end - 1, rows: rows_less(w.rows, h[w.end - 1] as int), ..w },
            limit,
        );
    }
}

/// Sliding down keeps a window sound and its count at or below `limit`.
pub proof fn lemma_advanced_sound(h: Seq<nat>, w: Window, limit: int, selected: int)
    requires
        sound(h, w),
        w.rows <= limit,
        selected < h.len(),
    ensures
        sound(h, advanced(h, w, limit, selected)),
        advanced(h, w, limit, selected).rows <= limit,
    decreases selected - w.end + 1,
{
    if selected >= w.end {
        let grown = grown_down(h, w);
        lemma_trimmed_top_sound(h, grown, limit);
        lemma_trimmed_top_keeps_end(h, grown, limit);
        lemma_advanced_sound(h, trimmed_top(h, grown, limit), limit, selected);
    }
}

/// Sliding up keeps a window sound and its count at or below `limit`.
pub proof fn lemma_retreated_sound(h: Seq<nat>, w: Window, limit: int, selected: int)
    requires
        sound(h, w),
        w.rows <= limit,
        0 <= selected,
    ensures
        sound(h, retreated(h, w, limit, selected)),
        retreated(h, w, limit, selected).rows <= limit,
    decreases w.start - selected,
{
    if selected < w.start {
        let grown = grown_up(h, w);
        lemma_rows_from_top(h, w.start - 1, w.end);
        lemma_trimmed_bottom_sound(h, grown, limit);
        lemma_trimmed_bottom_keeps_start(h, grown, limit);
        lemma_retreated_sound(h, trimmed_bottom(h, grown, limit), limit, selected);
    }
}

/// The window that is drawn lies inside the list, counts no more rows than
/// the viewport has, and starts at the selected entry or above: its start
/// is an entry of the list.
pub proof fn lemma_window_sound(h: Seq<nat>, offset: int, selected: Option<nat>, limit: int)
    requires
        h.len() >= 1,
        0 <= offset <= h.len(),
        limit >= 0,
    ensures
        sound(h, window(h, offset, selected, limit)),
        window(h, offset, selected, limit).rows <= limit,
        window(h, offset, selected, limit).start <= clamped(selected, h.len()) < h.len(),
{
    let chosen = clamped(selected, h.len());
    let first = first_fill(h, offset, limit);
    lemma_filled_sound(h, Window { start: offset, end: offset, rows: 0 }, limit);
    lemma_advanced_sound(h, first, limit, chosen);
    let slid = advanced(h, first, limit, chosen);
    lemma_retreated_sound(h, slid, limit, chosen);
    lemma_retreated_start(h, slid, limit, chosen);
}

/// The window that fills the viewport from `offset`, before it is slid.
pub open spec fn first_fill(h: Seq<nat>, offset: int, limit: int) -> Window {
    filled(h, Window { start: offset, end: offset, rows: 0 }, limit)
}

/// The selected entry starts inside the viewport: the window starts at it or
/// above, and the entries between take fewer rows than the viewport has.
///
/// This holds where the selected entry lies in the window that is filled
/// from the scroll position, or above it; and where it lies below, as long
/// as the rows that the count of that window leaves out are fewer than the
/// rows of the selected entry. The count leaves out no row where the last
/// entry of the window fits whole. Where the last entry sticks out of the
/// viewport by as many rows as the selected entry has, or by more, and the
/// selection lies below, the selected entry may start below the viewport.
pub proof fn lemma_selection_visible(
    h: Seq<nat>,
    offset: int,
    selected: Option<nat>,
    limit: int,
)
    requires
        h.len() >= 1,
        0 <= offset <= h.len(),
        limit >= 1,
        all_positive(h),
        clamped(selected, h.len()) < first_fill(h, offset, limit).end || behind(
            h,
            first_fill(h, offset, limit),
        ) < h[clamped(selected, h.len())],
    ensures
        0 <= window(h, offset, selected, limit).start <= clamped(selected, h.len()),
        rows_between(
            h,
            window(h, offset, selected, limit).start,
            clamped(selected, h.len()),
        ) < limit,
{
    let chosen = clamped(selected, h.len());
    let empty = Window { start: offset, end: offset, rows: 0 };
    let first = first_fill(h, offset, limit);
    lemma_filled_shape(h, empty, limit);
    let slid = advanced(h, first, limit, chosen);
    lemma_retreated_start(h, slid, limit, chosen);
    if chosen < first.end {
        assert(slid == first);
        if chosen >= offset {
            assert(rows_between(h, offset, chosen) < limit);
        }
    } else {
        lemma_filled_sound(h, empty, limit);
        lemma_advanced_behind(h, first, limit, chosen);
        lemma_advanced_sound(h, first, limit, chosen);
        if slid.start <= chosen {
            assert(rows_between(h, slid.start, chosen + 1) == rows_between(h, slid.start, chosen)
                + h[chosen]);
        }
    }
}

/// The window stays where it is while the selection lies inside it: where
/// the window filled from the scroll position holds the selected entry, the
/// window that is drawn is that window.
pub proof fn lemma_window_stable(h: Seq<nat>, offset: int, selected: Option<nat>, limit: int)
    requires
        h.len() >= 1,
        0 <= offset <= clamped(selected, h.len()),
        clamped(selected, h.len()) < first_fill(h, offset, limit).end,
    ensures
        window(h, offset, selected, limit) == first_fill(h, offset, limit),
        first_fill(h, offset, limit).start == offset,
{
    let chosen = clamped(selected, h.len());
    let first = first_fill(h, offset, limit);
    lemma_filled_keeps_start(h, Window { start: offset, end: offset, rows: 0 }, limit);
    assert(advanced(h, first, limit, chosen) == first);
    assert(retreated(h, first, limit, chosen) == first);
}

/// Filling does not move the start of the window.
pub proof fn lemma_filled_keeps_start(h: Seq<nat>, w: Window, limit: int)
    ensures
        filled(h, w, limit).start == w.start,
        filled(h, w, limit).end >= w.end,
    decreases h.len() - w.end,
{
    if w.end < h.len() && w.rows + h[w.end] <= limit {
        lemma_filled_keeps_start(
            h,
            Window { end: w.end + 1, rows: w.rows + h[w.end], ..w },
            limit,
        );
    }
}

/// The height of the entry at `at`, as a count of rows.
fn rows_at(items: &[LogListItem], width: u16, at: usize) -> (rows: u128)
    requires
        width >= 1,
        at < items.len(),
    ensures
        rows == heights(items@, width as int)[at as int],
        rows >= 1,
        rows <= usize::MAX,
{
    items[at].height(width) as u128
}

/// Computes the window of `items` that is drawn in a viewport of `width`
/// cells and `rows` rows, for the scroll position `offset` and the
/// selection `selected`. Returns the index of its first entry and the index
/// behind its last one.
pub fn visible_window(
    items: &[LogListItem],
    width: u16,
    rows: u16,
    offset: usize,
    selected: Option<usize>,
) -> (found: (usize, usize))
    requires
        width >= 1,
        items.len() >= 1,
        offset <= items.len(),
    ensures
        found.0 == window(
            heights(items@, width as int),
            offset as int,
            match selected {
                Some(i) => Some(i as nat),
                None => None,
            },
            rows as int,
        ).start,
        found.1 == window(
            heights(items@, width as int),
            offset as int,
            match selected {
                Some(i) => Some(i as nat),
                None => None,
            },
            rows as int,
        ).end,
        found.0 <= found.1 <= items.len(),
        found.0 < items.len(),
{
    let ghost h = heights(items@, width as int);
    let ghost picked: Option<nat> = match selected {
        Some(i) => Some(i as nat),
        None => None,
    };
    let n: usize = items.len();
    let limit: u128 = rows as u128;
    let mut start: usize = offset;
    let mut end: usize = offset;
    let mut used: u128 = 0;
    let ghost empty = Window { start: offset as int, end: offset as int, rows: 0 };
    while end < n
        invariant_except_break
            filled(h, Window { start: start as int, end: end as int, rows: used as int }, limit as int)
                == filled(h, empty, limit as int),
        invariant
            h == heights(items@, width as int),
            n == items.len(),
            width >= 1,
            limit == rows,
            start == offset,
            start <= end <= n,
            used <= limit,
            sound(h, Window { start: start as int, end: end as int, rows: used as int }),
        ensures
            (Window { start: start as int, end: end as int, rows: used as int }) == filled(
                h,
                empty,
                limit as int,
            ),
        decreases n - end,
    {
        let next: u128 = rows_at(items, width, end);
        if used + next > limit {
            if used != limit {
                used = limit;
                end += 1;
            }
            break ;
        }
        end += 1;
        used += next;
    }
    let wanted: usize = match selected {
        Some(i) => i,
        None => 0,
    };
    let chosen: usize = if wanted < n - 1 {
        wanted
    } else {
        n - 1
    };
    assert(chosen as int == clamped(picked, h.len()));
    let ghost first = Window { start: start as int, end: end as int, rows: used as int };
    while chosen >= end
        invariant
            h == heights(items@, width as int),
            n == items.len(),
            width >= 1,
            limit == rows,
            chosen < n,
            used <= limit,
            sound(h, Window { start: start as int, end: end as int, rows: used as int }),
            advanced(
                h,
                Window { start: start as int, end: end as int, rows: used as int },
                limit as int,
                chosen as int,
            ) == advanced(h, first, limit as int, chosen as int),
        decreases chosen + 1 - end,
    {
        let ghost grown = grown_down(
            h,
            Window { start: start as int, end: end as int, rows: used as int },
        );
        used = used + rows_at(items, width, end);
        end += 1;
        while used > limit
            invariant
                h == heights(items@, width as int),
                n == items.len(),
                width >= 1,
                limit == rows,
                used <= limit + usize::MAX,
                sound(h, Window { start: start as int, end: end as int, rows: used as int }),
                trimmed_top(
                    h,
                    Window { start: start as int, end: end as int, rows: used as int },
                    limit as int,
                ) == trimmed_top(h, grown, limit as int),
            decreases end - start,
        {
            proof {
                lemma_rows_from_top(h, start as int, end as int);
                lemma_rows_not_negative(h, start + 1, end as int);
            }
            let gone: u128 = rows_at(items, width, start);
            used = if used >= gone {
                used - gone
            } else {
                0
            };
            start += 1;
        }
    }
    let ghost second = Window { start: start as int, end: end as int, rows: used as int };
    while chosen < start
        invariant
            h == heights(items@, width as int),
            n == items.len(),
            width >= 1,
            limit == rows,
            chosen < n,
            used <= limit,
            sound(h, Window { start: start as int, end: end as int, rows: used as int }),
            retreated(
                h,
                Window { start: start as int, end: end as int, rows: used as int },
                limit as int,
                chosen as int,
            ) == retreated(h, second, limit as int, chosen as int),
        decreases start,
    {
        let ghost grown = grown_up(
            h,
            Window { start: start as int, end: end as int, rows: used as int },
        );
        proof {
            lemma_rows_from_top(h, start - 1, end as int);
        }
        start -= 1;
        used = used + rows_at(items, width, start);
        while used > limit
            invariant
                h == heights(items@, width as int),
                n == items.len(),
                width >= 1,
                limit == rows,
                used <= limit + usize::MAX,
                sound(h, Window { start: start as int, end: end as int, rows: used as int }),
                trimmed_bottom(
                    h,
                    Window { start: start as int, end: end as int, rows: used as int },
                    limit as int,
                ) == trimmed_bottom(h, grown, limit as int),
            decreases end - start,
        {
            proof {
                lemma_rows_not_negative(h, start as int, end - 1);
            }
            end -= 1;
            let gone: u128 = rows_at(items, width, end);
            used = if used >= gone {
                used - gone
            } else {
                0
            };
        }
    }
    (start, end)
}

} // verus!
