//! The style that is laid on cells: colours and modifiers.

use tui::style::Color;
use vstd::prelude::*;

verus! {

/// `tui::style::Color`: a colour of the display. The list hands colours
/// through and never looks inside one.
#[verifier::external_type_specification]
#[verifier::external_body]
pub struct ExColor(tui::style::Color);

/// The modifier bits that the display knows: bold, dim, italic, underlined,
/// slow blink, rapid blink, reversed, hidden and crossed out, from the
/// lowest bit up.
pub const KNOWN_MODIFIERS: u16 = 0x01ff;

/// What is laid on a cell: a foreground and a background colour, where the
/// style sets one, the modifiers that it switches on and those that it
/// switches off.
#[derive(Debug, Clone, Copy, PartialEq)]
pub struct CellStyle {
    /// The foreground colour, where the style sets one.
    pub fg: Option<Color>,
    /// The background colour, where the style sets one.
    pub bg: Option<Color>,
    /// The modifiers that the style switches on, one bit each.
    pub add_modifier: u16,
    /// The modifiers that the style switches off, one bit each.
    pub sub_modifier: u16,
}

impl CellStyle {
    /// The style that changes nothing.
    pub open spec fn plain() -> CellStyle {
        CellStyle { fg: None, bg: None, add_modifier: 0, sub_modifier: 0 }
    }

    /// The style with `over` laid on top: `over` decides wherever it sets a
    /// colour or switches a modifier, `self` everywhere else.
    pub open spec fn patched(self, over: CellStyle) -> CellStyle {
        CellStyle {
            fg: if over.fg is Some {
                over.fg
            } else {
                self.fg
            },
            bg: if over.bg is Some {
                over.bg
            } else {
                self.bg
            },
            add_modifier: (self.add_modifier & !over.sub_modifier) | over.add_modifier,
            sub_modifier: (self.sub_modifier & !over.add_modifier) | over.sub_modifier,
        }
    }

    /// Lays `over` on top of the style.
    pub fn patch(self, over: CellStyle) -> (style: CellStyle)
        ensures
            style == self.patched(over),
    {
        CellStyle {
            fg: match over.fg {
                Some(c) => Some(c),
                None => self.fg,
            },
            bg: match over.bg {
                Some(c) => Some(c),
                None => self.bg,
            },
            add_modifier: (self.add_modifier & !over.sub_modifier) | over.add_modifier,
            sub_modifier: (self.sub_modifier & !over.add_modifier) | over.sub_modifier,
        }
    }
}

impl Default for CellStyle {
    /// The style that changes nothing.
    fn default() -> (style: CellStyle)
        ensures
            style == CellStyle::plain(),
    {
        CellStyle { fg: None, bg: None, add_modifier: 0, sub_modifier: 0 }
    }
}

/// The plain style is neutral: laid on a style or under it, it leaves the
/// style as it is.
pub proof fn lemma_plain_is_neutral(style: CellStyle)
    ensures
        style.patched(CellStyle::plain()) == style,
        CellStyle::plain().patched(style) == style,
{
    let a = style.add_modifier;
    let s = style.sub_modifier;
    assert((a & !0u16) | 0u16 == a) by (bit_vector);
    assert((s & !0u16) | 0u16 == s) by (bit_vector);
    assert((0u16 & !s) | a == a) by (bit_vector);
    assert((0u16 & !a) | s == s) by (bit_vector);
}

} // verus!
