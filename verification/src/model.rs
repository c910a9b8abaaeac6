//! The list itself: its entries and its cursor.

use crate::item::LogListItem;
use crate::keys::key_move;
use crate::keys::move_of;
use crate::keys::KeyPress;
use crate::keys::Move;
use crate::state::LogListState;
use crate::state::StateView;
use vstd::prelude::*;

verus! {

/// The entries of a list and its cursor.
pub struct LogListModel {
    /// The cursor.
    pub state: LogListState,
    /// The entries, in the order in which they are shown.
    pub items: Vec<LogListItem>,
}

/// The cursor `s` after a step down in a list of `len` entries: the
/// selection moves to the next entry where there is one.
pub open spec fn after_next(s: StateView, len: nat) -> StateView {
    match s.selected {
        Some(i) => if i + 1 < len {
            StateView { selected: Some(i + 1), ..s }
        } else {
            s
        },
        None => s,
    }
}

/// The cursor `s` after a step up: the selection moves to the entry before
/// where there is one.
pub open spec fn after_previous(s: StateView) -> StateView {
    match s.selected {
        Some(i) => if i > 0 {
            StateView { selected: Some((i - 1) as nat), ..s }
        } else {
            s
        },
        None => s,
    }
}

/// The cursor `s` after the step `step` in a list of `len` entries.
pub open spec fn after_move(s: StateView, len: nat, step: Move) -> StateView {
    match step {
        Move::Down => after_next(s, len),
        Move::Up => after_previous(s),
    }
}

/// The cursor `s` after the key press `press` in a list of `len` entries: a
/// key that stands for a step takes it, any other key changes nothing.
pub open spec fn after_key(s: StateView, len: nat, press: KeyPress) -> StateView {
    match move_of(press) {
        Some(step) => after_move(s, len, step),
        None => s,
    }
}

/// The cursor `s` after the steps `steps`, one after the other.
pub open spec fn after_moves(s: StateView, len: nat, steps: Seq<Move>) -> StateView
    decreases steps.len(),
{
    if steps.len() == 0 {
        s
    } else {
        after_move(after_moves(s, len, steps.drop_last()), len, steps.last())
    }
}

/// Whether the selection of `s` is an entry of a list of `len` entries.
pub open spec fn selects_entry(s: StateView, len: nat) -> bool {
    s.selected is Some && s.selected->0 < len
}

/// Steps never lead out of the list: a selection that is an entry of the
/// list is one after any run of steps down and up, and the steps change
/// nothing but the selection.
pub proof fn lemma_moves_stay_inside(s: StateView, len: nat, steps: Seq<Move>)
    requires
        selects_entry(s, len),
    ensures
        selects_entry(after_moves(s, len, steps), len),
        after_moves(s, len, steps) == (StateView {
            selected: after_moves(s, len, steps).selected,
            ..s
        }),
    decreases steps.len(),
{
    if steps.len() > 0 {
        lemma_moves_stay_inside(s, len, steps.drop_last());
    }
}

/// Steps select nothing by themselves: where nothing is selected, any run of
/// steps changes nothing.
pub proof fn lemma_moves_keep_unselected(s: StateView, len: nat, steps: Seq<Move>)
    requires
        s.selected is None,
    ensures
        after_moves(s, len, steps) == s,
    decreases steps.len(),
{
    if steps.len() > 0 {
        lemma_moves_keep_unselected(s, len, steps.drop_last());
    }
}

impl LogListModel {
    /// An empty list whose cursor stands on the first entry to come.
    pub fn new() -> (model: LogListModel)
        ensures
            model.items@.len() == 0,
            model.state@ == (StateView {
                offset: 0,
                selected: Some(0),
                focused: false,
                find_text: Seq::empty(),
            }),
    {
        let mut state = LogListState::default();
        state.select(Some(0));
        LogListModel { state, items: Vec::new() }
    }

    /// Replaces the search text. Cursor and entries stay as they are.
    pub fn set_find_text(&mut self, t: &str)
        ensures
            final(self).state@ == (StateView { find_text: t@, ..old(self).state@ }),
            final(self).items == old(self).items,
    {
        self.state.set_find_text(t.to_owned());
    }

    /// Appends `item` to the entries. The cursor stays as it is.
    pub fn push(&mut self, item: LogListItem)
        ensures
            final(self).items@ == old(self).items@.push(item),
            final(self).state == old(self).state,
    {
        self.items.push(item);
    }

    /// Removes every entry and puts the cursor back to the first entry to
    /// come, at the top. Focus and search text stay as they are.
    pub fn clear(&mut self)
        ensures
            final(self).items@.len() == 0,
            final(self).state@ == (StateView {
                offset: 0,
                selected: Some(0),
                ..old(self).state@
            }),
    {
        self.items = Vec::new();
        self.state.select(None);
        self.state.select(Some(0));
    }

    /// Selects the entry below the selected one, where there is one.
    pub fn next_if_exist(&mut self)
        ensures
            final(self).state@ == after_next(old(self).state@, old(self).items@.len()),
            final(self).items == old(self).items,
    {
        if let Some(i) = self.state.selected() {
            if self.items.len() > 0 && i < self.items.len() - 1 {
                self.state.select(Some(i + 1));
            }
        }
    }

    /// Selects the entry above the selected one, where there is one.
    pub fn previous_if_exist(&mut self)
        ensures
            final(self).state@ == after_previous(old(self).state@),
            final(self).items == old(self).items,
    {
        if let Some(i) = self.state.selected() {
            if i > 0 {
                self.state.select(Some(i - 1));
            }
        }
    }

    /// Drops the selection and scrolls back to the top.
    pub fn unselect(&mut self)
        ensures
            final(self).state@ == (StateView { offset: 0, selected: None, ..old(self).state@ }),
            final(self).items == old(self).items,
    {
        self.state.select(None);
    }

    /// Notes that the list holds the input focus.
    pub fn focus(&mut self)
        ensures
            final(self).state@ == (StateView { focused: true, ..old(self).state@ }),
            final(self).items == old(self).items,
    {
        self.state.set_focused(true);
    }

    /// Notes that the list has lost the input focus.
    pub fn blur(&mut self)
        ensures
            final(self).state@ == (StateView { focused: false, ..old(self).state@ }),
            final(self).items == old(self).items,
    {
        self.state.set_focused(false);
    }

    /// Handles a key press: a key that stands for a move steps the
    /// selection, any other key changes nothing.
    pub fn on_key(&mut self, key: KeyPress)
        ensures
            final(self).state@ == after_key(old(self).state@, old(self).items@.len(), key),
            final(self).items == old(self).items,
    {
        match key_move(key) {
            Some(Move::Down) => self.next_if_exist(),
            Some(Move::Up) => self.previous_if_exist(),
            None => {},
        }
    }
}

} // verus!
