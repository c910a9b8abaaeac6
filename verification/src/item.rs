//! One entry of the list: a text and a style of its own.

use crate::compose::height;
use crate::window::all_positive;
use crate::wrap::lemma_lines_fit;
use crate::wrap::wrapped_height;
use crate::style::CellStyle;
use vstd::prelude::*;

verus! {

/// An entry of the list.
#[derive(Debug)]
pub struct LogListItem {
    content: String,
    style: CellStyle,
}

/// What a [`LogListItem`] holds, as mathematical values.
pub struct ItemView {
    /// The text of the entry.
    pub content: Seq<char>,
    /// The style of the entry, which is laid on that of its list.
    pub style: CellStyle,
}

impl View for LogListItem {
    type V = ItemView;

    closed spec fn view(&self) -> ItemView {
        ItemView { content: self.content@, style: self.style }
    }
}

/// The number of rows that each of `items` takes at `width` cells.
pub open spec fn heights(items: Seq<LogListItem>, width: int) -> Seq<nat> {
    items.map_values(|item: LogListItem| wrapped_height(item@.content, width))
}

/// Every entry takes at least one row, at any width of at least one cell.
pub proof fn lemma_heights_positive(items: Seq<LogListItem>, width: int)
    requires
        width >= 1,
    ensures
        all_positive(heights(items, width)),
{
    assert forall|i: int| 0 <= i < items.len() implies #[trigger] heights(items, width)[i]
        >= 1 by {
        lemma_lines_fit(items[i]@.content, 0, width);
    }
}

impl LogListItem {
    /// An entry that shows `content` in the style of its list.
    pub fn new(content: String) -> (item: LogListItem)
        ensures
            item@ == (ItemView { content: content@, style: CellStyle::plain() }),
    {
        LogListItem { content, style: CellStyle::default() }
    }

    /// The same entry, drawn in `style` on top of the style of its list.
    pub fn style(self, style: CellStyle) -> (item: LogListItem)
        ensures
            item@ == (ItemView { content: self@.content, style }),
    {
        let mut item = self;
        item.style = style;
        item
    }

    /// The number of rows that the entry takes at `w` cells.
    pub fn height(&self, w: u16) -> (rows: usize)
        requires
            w >= 1,
        ensures
            rows == wrapped_height(self@.content, w as int),
            rows >= 1,
    {
        height(self.content.as_str(), w)
    }

    /// The text of the entry.
    pub fn content(&self) -> (text: &str)
        ensures
            text@ == self@.content,
    {
        self.content.as_str()
    }

    /// The style of the entry.
    pub fn own_style(&self) -> (style: CellStyle)
        ensures
            style == self@.style,
    {
        self.style
    }
}

} // verus!
