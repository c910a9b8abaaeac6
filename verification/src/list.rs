//! Drawing the list into a rectangle of a cell buffer.

use crate::canvas::buffer_cells;
use crate::canvas::buffer_extent;
use crate::canvas::can_draw;
use crate::canvas::fill_style;
use crate::canvas::texts_of;
use crate::canvas::with_fill;
use crate::canvas::with_row;
use crate::canvas::write_line;
use crate::canvas::Area;
use crate::canvas::CellView;
use crate::canvas::Extent;
use crate::compose::compose;
use crate::compose::composed;
use crate::compose::rows_of;
use crate::compose::DisplayLine;
use crate::highlight::FragmentView;
use crate::item::heights;
use crate::item::lemma_heights_positive;
use crate::item::LogListItem;
use crate::state::LogListState;
use crate::state::StateView;
use crate::style::CellStyle;
use crate::window::behind;
use crate::window::clamped;
use crate::window::first_fill;
use crate::window::lemma_rows_not_negative;
use crate::window::lemma_selection_visible;
use crate::window::lemma_window_sound;
use crate::window::rows_between;
use crate::window::visible_window;
use crate::window::window;
use tui::buffer::Buffer;
use vstd::prelude::*;

verus! {

/// How a list is drawn: its entries and the styles that are laid on them.
#[derive(Debug)]
pub struct LogList<'a> {
    items: &'a [LogListItem],
    style: CellStyle,
    highlight_style: CellStyle,
    match_style: CellStyle,
}

/// What a [`LogList`] holds, as mathematical values.
pub struct ListView {
    /// The entries.
    pub items: Seq<LogListItem>,
    /// The style that is laid under every entry.
    pub style: CellStyle,
    /// The style that is laid over the selected entry.
    pub highlight_style: CellStyle,
    /// The style that is laid over the occurrences of the search text.
    pub match_style: CellStyle,
}

impl<'a> View for LogList<'a> {
    type V = ListView;

    closed spec fn view(&self) -> ListView {
        ListView {
            items: self.items@,
            style: self.style,
            highlight_style: self.highlight_style,
            match_style: self.match_style,
        }
    }
}

/// The row in which the entry `k` of a window that starts at `start` begins,
/// or the row below the rectangle where the entry begins below it.
pub open spec fn row_top(h: Seq<nat>, start: int, k: int, area: Area) -> int {
    let wanted = area.y + rows_between(h, start, k);
    let bottom = area.y + area.height;
    if wanted < bottom {
        wanted
    } else {
        bottom
    }
}

/// The number of rows of the entry `k` that lie in the rectangle.
pub open spec fn rows_shown(h: Seq<nat>, start: int, k: int, area: Area) -> int {
    let room = area.y + area.height - row_top(h, start, k, area);
    if h[k] < room {
        h[k] as int
    } else {
        room
    }
}

/// The style of a piece: `accent` for an occurrence of the search text, the
/// plain style for any other piece.
pub open spec fn piece_style(matched: bool, accent: CellStyle) -> CellStyle {
    if matched {
        accent
    } else {
        CellStyle::plain()
    }
}

/// The styles of the pieces of a row.
pub open spec fn styles_of(row: Seq<FragmentView>, accent: CellStyle) -> Seq<CellStyle> {
    row.map_values(|piece: FragmentView| piece_style(piece.matched, accent))
}

/// The cells `cells` after the first `count` rows of `rows` were written one
/// below the other, the first into row `y`, each into the `width` cells from
/// column `x` on, with `accent` on the occurrences of the search text.
pub open spec fn with_rows(
    cells: Map<(int, int), CellView>,
    x: int,
    y: int,
    rows: Seq<Seq<FragmentView>>,
    accent: CellStyle,
    width: int,
    count: int,
) -> Map<(int, int), CellView>
    decreases count,
{
    if count <= 0 {
        cells
    } else {
        with_row(
            with_rows(cells, x, y, rows, accent, width, count - 1),
            x,
            y + count - 1,
            texts_of(rows[count - 1]),
            styles_of(rows[count - 1], accent),
            width,
        )
    }
}

/// The cells `cells` after the entry `k` of a window that starts at `start`
/// was drawn into `area`. An entry that begins below the rectangle changes
/// nothing. Of any other entry the rows that lie in the rectangle are
/// drawn: on their cells the style of the entry is laid, itself laid on
/// that of the list; over it the highlight, where the entry is the selected
/// one; then the rows are written.
pub open spec fn with_entry(
    cells: Map<(int, int), CellView>,
    list: ListView,
    state: StateView,
    area: Area,
    start: int,
    k: int,
) -> Map<(int, int), CellView> {
    let h = heights(list.items, area.width as int);
    let x = area.x as int;
    let y = row_top(h, start, k, area);
    let width = area.width as int;
    let shown = rows_shown(h, start, k, area);
    let based = with_fill(cells, x, y, width, shown, list.style.patched(list.items[k]@.style));
    let chosen = if state.selected == Some(k as nat) {
        with_fill(based, x, y, width, shown, list.highlight_style)
    } else {
        based
    };
    if y >= area.y + area.height {
        cells
    } else {
        with_rows(
            chosen,
            x,
            y,
            composed(list.items[k]@.content, width, state.find_text),
            list.match_style,
            width,
            shown,
        )
    }
}

/// The cells `cells` after `count` entries from `start` on were drawn into
/// `area`, one below the other.
pub open spec fn with_entries(
    cells: Map<(int, int), CellView>,
    list: ListView,
    state: StateView,
    area: Area,
    start: int,
    count: int,
) -> Map<(int, int), CellView>
    decreases count,
{
    if count <= 0 {
        cells
    } else {
        with_entry(
            with_entries(cells, list, state, area, start, count - 1),
            list,
            state,
            area,
            start,
            start + count - 1,
        )
    }
}

/// Whether a list of `items` draws anything into `area`.
pub open spec fn draws(items: Seq<LogListItem>, area: Area) -> bool {
    area.width >= 1 && area.height >= 1 && items.len() >= 1
}

/// Whether a list of `items` with the cursor `state` can be drawn into
/// `area` of a buffer of the extent `extent`: where anything is drawn, the
/// buffer is well formed and holds every cell of `area`, and the scroll
/// position does not lie behind the list.
pub open spec fn drawable(
    items: Seq<LogListItem>,
    state: StateView,
    area: Area,
    extent: Extent,
) -> bool {
    draws(items, area) ==> extent.well_formed() && area.inside(extent.area) && state.offset
        <= items.len()
}

/// The cursor `state` after the list was drawn into `area`: where anything
/// is drawn, the scroll position is the start of the window.
pub open spec fn scrolled(items: Seq<LogListItem>, state: StateView, area: Area) -> StateView {
    if draws(items, area) {
        StateView {
            offset: window(
                heights(items, area.width as int),
                state.offset as int,
                state.selected,
                area.height as int,
            ).start as nat,
            ..state
        }
    } else {
        state
    }
}

/// The cells `cells` after `list` was drawn into `area` with the cursor
/// `state`: the entries of the window, one below the other.
pub open spec fn drawn(
    cells: Map<(int, int), CellView>,
    list: ListView,
    state: StateView,
    area: Area,
) -> Map<(int, int), CellView> {
    if draws(list.items, area) {
        let found = window(
            heights(list.items, area.width as int),
            state.offset as int,
            state.selected,
            area.height as int,
        );
        with_entries(cells, list, state, area, found.start, found.end - found.start)
    } else {
        cells
    }
}

/// Whether `after` holds the cells of `before` and agrees with it outside
/// `area`.
pub open spec fn same_outside(
    before: Map<(int, int), CellView>,
    after: Map<(int, int), CellView>,
    area: Area,
) -> bool {
    &&& after.dom() == before.dom()
    &&& forall|p: (int, int)|
        before.dom().contains(p) && !area.holds(p) ==> #[trigger] after[p] == before[p]
}

/// Writing rows into a rectangle changes no cell outside it.
pub proof fn lemma_rows_stay_inside(
    cells: Map<(int, int), CellView>,
    area: Area,
    y: int,
    rows: Seq<Seq<FragmentView>>,
    accent: CellStyle,
    count: int,
)
    requires
        area.y <= y,
        y + count <= area.y + area.height,
    ensures
        same_outside(
            cells,
            with_rows(cells, area.x as int, y, rows, accent, area.width as int, count),
            area,
        ),
    decreases count,
{
    if count > 0 {
        lemma_rows_stay_inside(cells, area, y, rows, accent, count - 1);
        let before = with_rows(cells, area.x as int, y, rows, accent, area.width as int, count - 1);
        let after = with_rows(cells, area.x as int, y, rows, accent, area.width as int, count);
        assert(after.dom() =~= before.dom());
    }
}

/// Drawing an entry into a rectangle changes no cell outside it.
pub proof fn lemma_entry_stays_inside(
    cells: Map<(int, int), CellView>,
    list: ListView,
    state: StateView,
    area: Area,
    start: int,
    k: int,
)
    requires
        start <= k,
    ensures
        same_outside(cells, with_entry(cells, list, state, area, start, k), area),
{
    let h = heights(list.items, area.width as int);
    lemma_rows_not_negative(h, start, k);
    let x = area.x as int;
    let y = row_top(h, start, k, area);
    let width = area.width as int;
    let shown = rows_shown(h, start, k, area);
    if y < area.y + area.height {
        let based = with_fill(cells, x, y, width, shown, list.style.patched(list.items[k]@.style));
        let chosen = if state.selected == Some(k as nat) {
            with_fill(based, x, y, width, shown, list.highlight_style)
        } else {
            based
        };
        assert(based.dom() =~= cells.dom());
        assert(chosen.dom() =~= cells.dom());
        assert(same_outside(cells, chosen, area));
        lemma_rows_stay_inside(
            chosen,
            area,
            y,
            composed(list.items[k]@.content, width, state.find_text),
            list.match_style,
            shown,
        );
    }
}

/// Drawing entries into a rectangle changes no cell outside it.
pub proof fn lemma_entries_stay_inside(
    cells: Map<(int, int), CellView>,
    list: ListView,
    state: StateView,
    area: Area,
    start: int,
    count: int,
)
    ensures
        same_outside(cells, with_entries(cells, list, state, area, start, count), area),
    decreases count,
{
    if count > 0 {
        lemma_entries_stay_inside(cells, list, state, area, start, count - 1);
        lemma_entry_stays_inside(
            with_entries(cells, list, state, area, start, count - 1),
            list,
            state,
            area,
            start,
            start + count - 1,
        );
    }
}

/// Drawing stays inside its rectangle: whatever the list and its cursor, the
/// buffer holds the cells that it held, and every cell outside `area` is as
/// it was.
pub proof fn lemma_drawn_stays_inside(
    cells: Map<(int, int), CellView>,
    list: ListView,
    state: StateView,
    area: Area,
)
    ensures
        same_outside(cells, drawn(cells, list, state, area), area),
{
    if draws(list.items, area) {
        let found = window(
            heights(list.items, area.width as int),
            state.offset as int,
            state.selected,
            area.height as int,
        );
        lemma_entries_stay_inside(cells, list, state, area, found.start, found.end - found.start);
    }
}

/// After drawing, the scroll position is an entry of the list at or above
/// the selected one; where nothing is selected, it is the first entry.
pub proof fn lemma_drawn_scrolls_inside(items: Seq<LogListItem>, state: StateView, area: Area)
    requires
        draws(items, area),
        state.offset <= items.len(),
    ensures
        scrolled(items, state, area).offset <= clamped(state.selected, items.len()) < items.len(),
        state.selected is None ==> scrolled(items, state, area).offset == 0,
{
    lemma_window_sound(
        heights(items, area.width as int),
        state.offset as int,
        state.selected,
        area.height as int,
    );
}

/// After drawing, the selected entry begins inside the rectangle: the scroll
/// position is at the entry or above, and the entry begins in a row of the
/// rectangle.
///
/// This holds where the selected entry is among the entries that fill the
/// rectangle from the old scroll position on, or lies above them; and where
/// it lies below, as long as the last of these entries sticks out of the
/// rectangle by fewer rows than the selected entry has. Where it sticks out
/// by as many or more and the selection lies below, the selected entry may
/// begin below the rectangle.
pub proof fn lemma_drawn_shows_selection(items: Seq<LogListItem>, state: StateView, area: Area)
    requires
        draws(items, area),
        state.offset <= items.len(),
        ({
            let h = heights(items, area.width as int);
            let first = first_fill(h, state.offset as int, area.height as int);
            clamped(state.selected, h.len()) < first.end || behind(h, first) < h[clamped(
                state.selected,
                h.len(),
            )]
        }),
    ensures
        ({
            let h = heights(items, area.width as int);
            let chosen = clamped(state.selected, items.len());
            let offset = scrolled(items, state, area).offset as int;
            &&& offset <= chosen < items.len()
            &&& area.y <= row_top(h, offset, chosen, area) < area.y + area.height
            &&& row_top(h, offset, chosen, area) == area.y + rows_between(h, offset, chosen)
        }),
{
    let h = heights(items, area.width as int);
    lemma_heights_positive(items, area.width as int);
    lemma_selection_visible(h, state.offset as int, state.selected, area.height as int);
    let chosen = clamped(state.selected, items.len());
    let offset = scrolled(items, state, area).offset as int;
    lemma_rows_not_negative(h, offset, chosen);
}

/// Entries that begin below the rectangle change nothing: once an entry of
/// the window begins below `area`, the entries after it leave every cell as
/// it is.
pub proof fn lemma_nothing_below(
    cells: Map<(int, int), CellView>,
    list: ListView,
    state: StateView,
    area: Area,
    start: int,
    done: int,
    count: int,
)
    requires
        0 <= done <= count,
        row_top(heights(list.items, area.width as int), start, start + done, area) == area.y
            + area.height,
    ensures
        with_entries(cells, list, state, area, start, count) == with_entries(
            cells,
            list,
            state,
            area,
            start,
            done,
        ),
    decreases count - done,
{
    if count > done {
        let h = heights(list.items, area.width as int);
        lemma_nothing_below(cells, list, state, area, start, done, count - 1);
        lemma_rows_grow(h, start, start + done, start + count - 1);
    }
}

/// A longer run takes no fewer rows.
pub proof fn lemma_rows_grow(h: Seq<nat>, from: int, mid: int, to: int)
    requires
        mid <= to,
    ensures
        rows_between(h, from, mid) <= rows_between(h, from, to),
    decreases to - mid,
{
    if mid < to {
        lemma_rows_grow(h, from, mid, to - 1);
        if from >= to {
            lemma_rows_not_negative(h, from, mid);
        }
    }
}

/// The style of each piece of `line`.
fn piece_styles(line: &DisplayLine, accent: CellStyle) -> (styles: Vec<CellStyle>)
    ensures
        styles@ == styles_of(line@, accent),
{
    let mut styles: Vec<CellStyle> = Vec::new();
    let mut i: usize = 0;
    while i < line.spans.len()
        invariant
            i <= line.spans.len(),
            styles@.len() == i,
            forall|j: int|
                0 <= j < i ==> #[trigger] styles@[j] == piece_style(line@[j].matched, accent),
        decreases line.spans.len() - i,
    {
        let style = if line.spans[i].matched {
            accent
        } else {
            CellStyle::default()
        };
        styles.push(style);
        i += 1;
    }
    assert(styles@ =~= styles_of(line@, accent));
    styles
}

impl<'a> LogList<'a> {
    /// A list of `items` whose styles change nothing.
    pub fn new(items: &'a [LogListItem]) -> (list: LogList<'a>)
        ensures
            list@ == (ListView {
                items: items@,
                style: CellStyle::plain(),
                highlight_style: CellStyle::plain(),
                match_style: CellStyle::plain(),
            }),
    {
        LogList {
            items,
            style: CellStyle::default(),
            highlight_style: CellStyle::default(),
            match_style: CellStyle::default(),
        }
    }

    /// The same list, with `style` laid under every entry.
    pub fn style(self, style: CellStyle) -> (list: LogList<'a>)
        ensures
            list@ == (ListView { style, ..self@ }),
    {
        let mut list = self;
        list.style = style;
        list
    }

    /// The same list, with `style` laid over the selected entry.
    pub fn highlight_style(self, style: CellStyle) -> (list: LogList<'a>)
        ensures
            list@ == (ListView { highlight_style: style, ..self@ }),
    {
        let mut list = self;
        list.highlight_style = style;
        list
    }

    /// The same list, with `style` laid over the occurrences of the search
    /// text.
    pub fn match_style(self, style: CellStyle) -> (list: LogList<'a>)
        ensures
            list@ == (ListView { match_style: style, ..self@ }),
    {
        let mut list = self;
        list.match_style = style;
        list
    }

    /// Draws the list into `area` of `buf` and scrolls `state` to the window
    /// that is drawn.
    ///
    /// Nothing happens where the rectangle is empty or the list has no
    /// entry. Otherwise the window is computed from the scroll position and
    /// the selection, the scroll position moves to its start, and its
    /// entries are drawn one below the other, each wrapped to the width of
    /// the rectangle and cut off at its bottom. No cell outside the
    /// rectangle changes.
    pub fn render(self, area: Area, buf: &mut Buffer, state: &mut LogListState)
        requires
            drawable(self@.items, old(state)@, area, buffer_extent(*old(buf))),
        ensures
            final(state)@ == scrolled(self@.items, old(state)@, area),
            draws(self@.items, area) ==> final(state)@.offset < self@.items.len(),
            buffer_extent(*final(buf)) == buffer_extent(*old(buf)),
            buffer_cells(*final(buf)) == drawn(buffer_cells(*old(buf)), self@, old(state)@, area),
            same_outside(buffer_cells(*old(buf)), buffer_cells(*final(buf)), area),
    {
        let ghost before = buffer_cells(*buf);
        let ghost extent = buffer_extent(*buf);
        let ghost cursor = state@;
        let ghost list = self@;
        proof {
            lemma_drawn_stays_inside(before, list, cursor, area);
        }
        if area.width < 1 || area.height < 1 {
            return ;
        }
        if self.items.len() == 0 {
            return ;
        }
        let ghost h = heights(list.items, area.width as int);
        let (start, end) = visible_window(
            self.items,
            area.width,
            area.height,
            state.offset(),
            state.selected(),
        );
        state.set_offset(start);
        let bottom: u16 = area.y + area.height;
        let mut y: u16 = area.y;
        let mut k: usize = start;
        proof {
            assert(rows_between(h, start as int, start as int) == 0);
        }
        while k < end
            invariant_except_break
                y == row_top(h, start as int, k as int, area),
            invariant
                area.width >= 1,
                area.height >= 1,
                bottom == area.y + area.height,
                extent.well_formed(),
                area.inside(extent.area),
                list == self@,
                list.items == self.items@,
                h == heights(list.items, area.width as int),
                start <= k <= end <= list.items.len(),
                area.y <= y <= bottom,
                state@ == scrolled(list.items, cursor, area),
                state@.find_text == cursor.find_text,
                state@.selected == cursor.selected,
                buffer_extent(*buf) == extent,
                buffer_cells(*buf) == with_entries(
                    before,
                    list,
                    cursor,
                    area,
                    start as int,
                    k - start,
                ),
            ensures
                buffer_cells(*buf) == with_entries(
                    before,
                    list,
                    cursor,
                    area,
                    start as int,
                    end - start,
                ),
            decreases end - k,
        {
            if y >= bottom {
                proof {
                    lemma_nothing_below(
                        before,
                        list,
                        cursor,
                        area,
                        start as int,
                        k - start,
                        end - start,
                    );
                }
                break ;
            }
            let item = &self.items[k];
            let rows = compose(item.content(), area.width, state.find_text());
            let room: u16 = bottom - y;
            let shown: u16 = if rows.len() < room as usize {
                rows.len() as u16
            } else {
                room
            };
            let part = Area { x: area.x, y, width: area.width, height: shown };
            let ghost lines = composed(
                list.items[k as int]@.content,
                area.width as int,
                cursor.find_text,
            );
            let ghost above = buffer_cells(*buf);
            proof {
                lemma_rows_not_negative(h, start as int, k as int);
                assert(rows_of(rows@) == lines);
                assert(h[k as int] == rows@.len());
                assert(shown as int == rows_shown(h, start as int, k as int, area));
            }
            fill_style(buf, part, self.style.patch(item.own_style()));
            let ghost based = buffer_cells(*buf);
            proof {
                assert(based =~= with_fill(
                    above,
                    area.x as int,
                    y as int,
                    area.width as int,
                    shown as int,
                    list.style.patched(list.items[k as int]@.style),
                ));
            }
            let is_selected = match state.selected() {
                Some(chosen) => chosen == k,
                None => false,
            };
            if is_selected {
                fill_style(buf, part, self.highlight_style);
                proof {
                    assert(buffer_cells(*buf) =~= with_fill(
                        based,
                        area.x as int,
                        y as int,
                        area.width as int,
                        shown as int,
                        list.highlight_style,
                    ));
                }
            }
            let ghost chosen = buffer_cells(*buf);
            proof {
                assert(is_selected == (cursor.selected == Some(k as nat)));
            }
            let mut j: u16 = 0;
            while j < shown
                invariant
                    j <= shown,
                    shown <= rows@.len(),
                    y + shown <= bottom,
                    bottom == area.y + area.height,
                    area.y <= y,
                    area.width >= 1,
                    extent.well_formed(),
                    area.inside(extent.area),
                    list == self@,
                    rows_of(rows@) == lines,
                    buffer_extent(*buf) == extent,
                    buffer_cells(*buf) == with_rows(
                        chosen,
                        area.x as int,
                        y as int,
                        lines,
                        list.match_style,
                        area.width as int,
                        j as int,
                    ),
                decreases shown - j,
            {
                let line = &rows[j as usize];
                let styles = piece_styles(line, self.match_style);
                let ghost earlier = buffer_cells(*buf);
                write_line(buf, area.x, y + j, line, &styles, area.width);
                proof {
                    assert(line@ == lines[j as int]);
                    assert(buffer_cells(*buf) =~= with_row(
                        earlier,
                        area.x as int,
                        y + j,
                        texts_of(line@),
                        styles_of(line@, list.match_style),
                        area.width as int,
                    ));
                }
                j += 1;
            }
            proof {
                assert(buffer_cells(*buf) == with_entry(
                    above,
                    list,
                    cursor,
                    area,
                    start as int,
                    k as int,
                ));
            }
            y = y + shown;
            k += 1;
        }
    }

    /// Draws the list as [`LogList::render`] does, where it can be drawn
    /// into `area` of `buf`; tells whether it could. Where it could not,
    /// buffer and cursor stay as they are.
    pub fn render_checked(self, area: Area, buf: &mut Buffer, state: &mut LogListState) -> (done:
        bool)
        ensures
            done == drawable(self@.items, old(state)@, area, buffer_extent(*old(buf))),
            done ==> final(state)@ == scrolled(self@.items, old(state)@, area),
            done ==> buffer_extent(*final(buf)) == buffer_extent(*old(buf)),
            done ==> buffer_cells(*final(buf)) == drawn(
                buffer_cells(*old(buf)),
                self@,
                old(state)@,
                area,
            ),
            !done ==> *final(buf) == *old(buf) && *final(state) == *old(state),
    {
        let nothing = area.width < 1 || area.height < 1 || self.items.len() == 0;
        let done = nothing || (can_draw(buf, area) && state.offset() <= self.items.len());
        if done {
            self.render(area, buf, state);
        }
        done
    }
}

} // verus!
