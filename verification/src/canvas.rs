//! The cell buffer of the display library, and what the list knows of it.
//!
//! A buffer is read here as the rectangle that it covers, the number of its
//! cells, and what each cell holds, by the position of the cell: a symbol,
//! two colours and a set of modifiers.

use crate::compose::DisplayLine;
use crate::highlight::FragmentView;
use crate::style::CellStyle;
use crate::style::KNOWN_MODIFIERS;
use tui::buffer::Buffer;
use tui::layout::Rect;
use tui::style::Color;
use tui::style::Modifier;
use tui::style::Style;
use tui::text::Span;
use tui::text::Spans;
use vstd::prelude::*;

verus! {

/// A rectangle of cells: its left column, its top row and its size.
#[derive(Debug, Clone, Copy, PartialEq, Eq)]
pub struct Area {
    /// The leftmost column.
    pub x: u16,
    /// The topmost row.
    pub y: u16,
    /// The number of columns.
    pub width: u16,
    /// The number of rows.
    pub height: u16,
}

/// Whether the cell at column `p.0` and row `p.1` lies in the rectangle of
/// `width` columns and `height` rows whose left column is `x` and whose top
/// row is `y`.
pub open spec fn within(p: (int, int), x: int, y: int, width: int, height: int) -> bool {
    x <= p.0 < x + width && y <= p.1 < y + height
}

impl Area {
    /// Whether the cell at column `p.0` and row `p.1` lies in the rectangle.
    pub open spec fn holds(self, p: (int, int)) -> bool {
        within(p, self.x as int, self.y as int, self.width as int, self.height as int)
    }

    /// Whether the rectangle lies inside `outer`.
    pub open spec fn inside(self, outer: Area) -> bool {
        &&& outer.x <= self.x
        &&& self.x + self.width <= outer.x + outer.width
        &&& outer.y <= self.y
        &&& self.y + self.height <= outer.y + outer.height
    }
}

/// The rectangle that a buffer covers and the number of cells that it holds.
#[derive(Debug, Clone, Copy, PartialEq, Eq)]
pub struct Extent {
    /// The rectangle that the buffer covers.
    pub area: Area,
    /// The number of cells that the buffer holds.
    pub cells: usize,
}

impl Extent {
    /// Whether the buffer holds one cell for each position of its rectangle,
    /// and columns, rows and cells can all be counted in sixteen bits.
    pub open spec fn well_formed(self) -> bool {
        &&& self.area.x + self.area.width <= u16::MAX
        &&& self.area.y + self.area.height <= u16::MAX
        &&& self.area.width * self.area.height <= u16::MAX
        &&& self.cells == self.area.width * self.area.height
    }
}

/// What a cell holds.
pub struct CellView {
    /// The symbol that the cell shows.
    pub symbol: Seq<char>,
    /// The foreground colour.
    pub fg: Color,
    /// The background colour.
    pub bg: Color,
    /// The modifiers that are switched on, one bit each.
    pub modifier: u16,
}

/// `tui::buffer::Buffer`: the cells of a rectangle of the display.
#[verifier::external_type_specification]
#[verifier::external_body]
pub struct ExBuffer(tui::buffer::Buffer);

/// The fields `area` and `content` of a buffer: the rectangle that it covers
/// and the length of its cell list.
pub uninterp spec fn buffer_extent(buf: Buffer) -> Extent;

/// What each cell of a buffer holds, by the column and the row of the cell:
/// the fields `symbol`, `fg` and `bg` of the cell and the bits of its field
/// `modifier`.
pub uninterp spec fn buffer_cells(buf: Buffer) -> Map<(int, int), CellView>;

/// What a run of cells of one row holds after
/// `tui::buffer::Buffer::set_spans` has written the texts `texts`, the text
/// at each place in the style of `styles` at that place, into the run, from
/// its first cell on and over no more cells than the run has; `before` is
/// what the cells held.
pub uninterp spec fn written_row(
    before: Seq<CellView>,
    texts: Seq<Seq<char>>,
    styles: Seq<CellStyle>,
) -> Seq<CellView>;

/// The cell `cell` with `style` laid on it: the colours that the style sets
/// replace those of the cell, the known modifiers that it switches on are
/// switched on, then those that it switches off are switched off. The
/// symbol stays.
pub open spec fn styled(cell: CellView, style: CellStyle) -> CellView {
    CellView {
        symbol: cell.symbol,
        fg: match style.fg {
            Some(c) => c,
            None => cell.fg,
        },
        bg: match style.bg {
            Some(c) => c,
            None => cell.bg,
        },
        modifier: (cell.modifier | (style.add_modifier & KNOWN_MODIFIERS)) & !(style.sub_modifier
            & KNOWN_MODIFIERS),
    }
}

/// Laying the plain style on a cell leaves the cell as it is.
pub proof fn lemma_plain_style_changes_nothing(cell: CellView)
    ensures
        styled(cell, CellStyle::plain()) == cell,
{
    let m = cell.modifier;
    assert((m | (0u16 & 0x01ffu16)) & !(0u16 & 0x01ffu16) == m) by (bit_vector);
}

/// Laying one style and then another on a cell is laying the first with the
/// second laid on top.
pub proof fn lemma_patch_lays_both(cell: CellView, under: CellStyle, over: CellStyle)
    ensures
        styled(styled(cell, under), over) == styled(cell, under.patched(over)),
{
    let m = cell.modifier;
    let a = under.add_modifier;
    let s = under.sub_modifier;
    let b = over.add_modifier;
    let t = over.sub_modifier;
    assert((((m | (a & 0x01ffu16)) & !(s & 0x01ffu16)) | (b & 0x01ffu16)) & !(t & 0x01ffu16) == (m
        | ((((a & !t) | b)) & 0x01ffu16)) & !((((s & !b) | t)) & 0x01ffu16)) by (bit_vector);
}

/// The cells `cells` after `style` was laid on every cell of the rectangle
/// of `width` columns and `height` rows whose left column is `x` and whose
/// top row is `y`.
pub open spec fn with_fill(
    cells: Map<(int, int), CellView>,
    x: int,
    y: int,
    width: int,
    height: int,
    style: CellStyle,
) -> Map<(int, int), CellView> {
    Map::new(
        |p: (int, int)| cells.dom().contains(p),
        |p: (int, int)|
            if within(p, x, y, width, height) {
                styled(cells[p], style)
            } else {
                cells[p]
            },
    )
}

/// What the `n` cells of row `y` from column `x` on hold.
pub open spec fn row_cells(cells: Map<(int, int), CellView>, x: int, y: int, n: int) -> Seq<
    CellView,
> {
    Seq::new(n as nat, |i: int| cells[(x + i, y)])
}

/// The cells `cells` after the texts `texts` were written in the styles
/// `styles` into the `width` cells of row `y` from column `x` on.
pub open spec fn with_row(
    cells: Map<(int, int), CellView>,
    x: int,
    y: int,
    texts: Seq<Seq<char>>,
    styles: Seq<CellStyle>,
    width: int,
) -> Map<(int, int), CellView> {
    Map::new(
        |p: (int, int)| cells.dom().contains(p),
        |p: (int, int)|
            if p.1 == y && x <= p.0 < x + width {
                written_row(row_cells(cells, x, y, width), texts, styles)[p.0 - x]
            } else {
                cells[p]
            },
    )
}

/// The texts of the pieces of a row.
pub open spec fn texts_of(row: Seq<FragmentView>) -> Seq<Seq<char>> {
    row.map_values(|piece: FragmentView| piece.text)
}

/// Reads the fields `area` and `content` of a buffer: the result is the
/// rectangle that the buffer covers and the length of its cell list.
#[verifier::external_body]
pub(crate) fn read_extent(buf: &Buffer) -> (extent: Extent)
    ensures
        extent == buffer_extent(*buf),
{
    Extent {
        area: Area { x: buf.area.x, y: buf.area.y, width: buf.area.width, height: buf.area.height },
        cells: buf.content.len(),
    }
}

/// `tui::buffer::Buffer::set_style`: lays `style` on every cell of `area`.
/// The call reaches each cell of `area` by its position, which the buffer
/// must hold. The buffer covers what it covered and holds the cells that it
/// held; every cell of `area` is the cell that it was with `style` laid on
/// it, as `tui::buffer::Cell::set_style` does it, and every other cell is
/// as it was.
#[verifier::external_body]
pub(crate) fn fill_style(buf: &mut Buffer, area: Area, style: CellStyle)
    requires
        buffer_extent(*old(buf)).well_formed(),
        area.inside(buffer_extent(*old(buf)).area),
    ensures
        buffer_extent(*final(buf)) == buffer_extent(*old(buf)),
        buffer_cells(*final(buf)).dom() == buffer_cells(*old(buf)).dom(),
        forall|p: (int, int)|
            buffer_cells(*old(buf)).dom().contains(p) ==> #[trigger] buffer_cells(*final(buf))[p]
                == if area.holds(p) {
                styled(buffer_cells(*old(buf))[p], style)
            } else {
                buffer_cells(*old(buf))[p]
            },
{
    let rect = Rect { x: area.x, y: area.y, width: area.width, height: area.height };
    let laid = Style {
        fg: style.fg,
        bg: style.bg,
        add_modifier: Modifier::from_bits_truncate(style.add_modifier),
        sub_modifier: Modifier::from_bits_truncate(style.sub_modifier),
    };
    buf.set_style(rect, laid);
}

/// `tui::buffer::Buffer::set_spans`: writes the pieces of `line`, each in
/// the style of `styles` at its place, into row `y` from column `x` on, over
/// at most `width` cells. The `width` cells must lie in the buffer. The
/// buffer covers what it covered and holds the cells that it held; outside
/// the `width` cells every cell is as it was, and inside them the cells
/// hold what `written_row` names.
#[verifier::external_body]
pub(crate) fn write_line(
    buf: &mut Buffer,
    x: u16,
    y: u16,
    line: &DisplayLine,
    styles: &Vec<CellStyle>,
    width: u16,
)
    requires
        buffer_extent(*old(buf)).well_formed(),
        (Area { x, y, width, height: 1 }).inside(buffer_extent(*old(buf)).area),
        styles@.len() == line@.len(),
    ensures
        buffer_extent(*final(buf)) == buffer_extent(*old(buf)),
        buffer_cells(*final(buf)).dom() == buffer_cells(*old(buf)).dom(),
        forall|p: (int, int)|
            buffer_cells(*old(buf)).dom().contains(p) ==> #[trigger] buffer_cells(*final(buf))[p]
                == if p.1 == y && x <= p.0 < x + width {
                written_row(
                    row_cells(buffer_cells(*old(buf)), x as int, y as int, width as int),
                    texts_of(line@),
                    styles@,
                )[p.0 - x]
            } else {
                buffer_cells(*old(buf))[p]
            },
{
    let spans: Vec<Span> = line.spans.iter().zip(styles.iter()).map(
        |(piece, style)| Span::styled(piece.text.iter().collect::<String>(), Style {
            fg: style.fg,
            bg: style.bg,
            add_modifier: Modifier::from_bits_truncate(style.add_modifier),
            sub_modifier: Modifier::from_bits_truncate(style.sub_modifier),
        }),
    ).collect();
    buf.set_spans(x, y, &Spans::from(spans), width);
}

/// Tells whether the list can draw into `area` of `buf`: whether the buffer
/// is well formed and holds every cell of `area`.
pub fn can_draw(buf: &Buffer, area: Area) -> (ok: bool)
    ensures
        ok == (buffer_extent(*buf).well_formed() && area.inside(buffer_extent(*buf).area)),
{
    let extent = read_extent(buf);
    let outer = extent.area;
    let right: u32 = outer.x as u32 + outer.width as u32;
    let bottom: u32 = outer.y as u32 + outer.height as u32;
    assert(outer.width * outer.height <= 0xffff * 0xffff) by (nonlinear_arith)
        requires
            outer.width <= 0xffff,
            outer.height <= 0xffff,
    ;
    let cells: u64 = outer.width as u64 * outer.height as u64;
    let sound = right <= 0xffff && bottom <= 0xffff && cells <= 0xffff && extent.cells as u128
        == cells as u128;
    sound && outer.x <= area.x && area.x as u32 + area.width as u32 <= right && outer.y <= area.y
        && area.y as u32 + area.height as u32 <= bottom
}

} // verus!
