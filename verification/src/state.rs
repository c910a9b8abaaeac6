//! The cursor of a list: where the window starts and which entry is selected.

use vstd::prelude::*;

verus! {

/// What a [`LogListState`] holds, as mathematical values.
pub struct StateView {
    /// Index of the first entry of the window.
    pub offset: nat,
    /// Index of the selected entry, if one is selected.
    pub selected: Option<nat>,
    /// Whether the list holds the input focus.
    pub focused: bool,
    /// The text that is searched for in the entries.
    pub find_text: Seq<char>,
}

/// Scroll position, selection, focus flag and search text of a list.
#[derive(Debug, Clone)]
pub struct LogListState {
    offset: usize,
    selected: Option<usize>,
    focused: bool,
    find_text: String,
}

impl View for LogListState {
    type V = StateView;

    closed spec fn view(&self) -> StateView {
        StateView {
            offset: self.offset as nat,
            selected: match self.selected {
                Some(i) => Some(i as nat),
                None => None,
            },
            focused: self.focused,
            find_text: self.find_text@,
        }
    }
}

impl Default for LogListState {
    /// A state at the top of the list, with nothing selected, no focus and
    /// an empty search text.
    fn default() -> (state: LogListState)
        ensures
            state@ == (StateView {
                offset: 0,
                selected: None,
                focused: false,
                find_text: Seq::empty(),
            }),
    {
        LogListState { offset: 0, selected: None, focused: false, find_text: String::new() }
    }
}

impl LogListState {
    /// The selected index.
    pub fn selected(&self) -> (index: Option<usize>)
        ensures
            index.is_some() == self@.selected.is_some(),
            index.is_some() ==> index.unwrap() as nat == self@.selected.unwrap(),
    {
        self.selected
    }

    /// Selects `index`, or nothing. Dropping the selection scrolls back to
    /// the top; any other field keeps its value.
    pub fn select(&mut self, index: Option<usize>)
        ensures
            final(self)@ == (StateView {
                selected: match index {
                    Some(i) => Some(i as nat),
                    None => None,
                },
                offset: if index.is_none() {
                    0
                } else {
                    old(self)@.offset
                },
                ..old(self)@
            }),
    {
        self.selected = index;
        if index.is_none() {
            self.offset = 0;
        }
    }

    /// Index of the first entry of the window.
    pub fn offset(&self) -> (offset: usize)
        ensures
            offset as nat == self@.offset,
    {
        self.offset
    }

    /// Whether the list holds the input focus.
    pub fn is_focused(&self) -> (focused: bool)
        ensures
            focused == self@.focused,
    {
        self.focused
    }

    /// The text that is searched for in the entries.
    pub fn find_text(&self) -> (text: &str)
        ensures
            text@ == self@.find_text,
    {
        self.find_text.as_str()
    }

    /// Moves the window so that it starts at `offset`.
    pub(crate) fn set_offset(&mut self, offset: usize)
        ensures
            final(self)@ == (StateView { offset: offset as nat, ..old(self)@ }),
    {
        self.offset = offset;
    }

    /// Records whether the list holds the input focus.
    pub(crate) fn set_focused(&mut self, focused: bool)
        ensures
            final(self)@ == (StateView { focused, ..old(self)@ }),
    {
        self.focused = focused;
    }

    /// Replaces the search text.
    pub(crate) fn set_find_text(&mut self, text: String)
        ensures
            final(self)@ == (StateView { find_text: text@, ..old(self)@ }),
    {
        self.find_text = text;
    }
}

} // verus!
