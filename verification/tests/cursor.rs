use log_list::keys::key_move;
use log_list::keys::Move;
use log_list::CellStyle;
use log_list::Key;
use log_list::KeyPress;
use log_list::LogListItem;
use log_list::LogListModel;
use log_list::LogListState;

fn press(key: Key) -> KeyPress {
    KeyPress { key, shift: false, control: false, alt: false }
}

fn with_control(key: Key) -> KeyPress {
    KeyPress { key, shift: false, control: true, alt: false }
}

fn model_of(count: usize) -> LogListModel {
    let mut model = LogListModel::new();
    for i in 0..count {
        model.push(LogListItem::new(format!("entry {}", i)));
    }
    model
}

#[test]
fn a_default_state_selects_nothing() {
    let state = LogListState::default();
    assert_eq!(state.selected(), None);
    assert_eq!(state.offset(), 0);
    assert!(!state.is_focused());
    assert_eq!(state.find_text(), "");
}

#[test]
fn select_sets_the_selection() {
    let mut state = LogListState::default();
    state.select(Some(7));
    assert_eq!(state.selected(), Some(7));
    state.select(None);
    assert_eq!(state.selected(), None);
    assert_eq!(state.offset(), 0);
}

#[test]
fn a_new_model_is_empty_and_selects_the_first_entry() {
    let model = LogListModel::new();
    assert!(model.items.is_empty());
    assert_eq!(model.state.selected(), Some(0));
    assert_eq!(model.state.offset(), 0);
    assert!(!model.state.is_focused());
    assert_eq!(model.state.find_text(), "");
}

#[test]
fn push_appends_and_keeps_the_cursor() {
    let mut model = model_of(2);
    model.state.select(Some(1));
    model.push(LogListItem::new("last".to_string()));
    assert_eq!(model.items.len(), 3);
    assert_eq!(model.items[2].content(), "last");
    assert_eq!(model.state.selected(), Some(1));
}

#[test]
fn next_stops_at_the_last_entry() {
    let mut model = model_of(3);
    model.next_if_exist();
    assert_eq!(model.state.selected(), Some(1));
    model.next_if_exist();
    assert_eq!(model.state.selected(), Some(2));
    model.next_if_exist();
    assert_eq!(model.state.selected(), Some(2));
}

#[test]
fn previous_stops_at_the_first_entry() {
    let mut model = model_of(3);
    model.state.select(Some(2));
    model.previous_if_exist();
    assert_eq!(model.state.selected(), Some(1));
    model.previous_if_exist();
    assert_eq!(model.state.selected(), Some(0));
    model.previous_if_exist();
    assert_eq!(model.state.selected(), Some(0));
}

#[test]
fn next_on_an_empty_list_changes_nothing() {
    let mut model = LogListModel::new();
    model.next_if_exist();
    assert_eq!(model.state.selected(), Some(0));
    model.previous_if_exist();
    assert_eq!(model.state.selected(), Some(0));
}

#[test]
fn steps_do_nothing_where_nothing_is_selected() {
    let mut model = model_of(3);
    model.unselect();
    model.next_if_exist();
    assert_eq!(model.state.selected(), None);
    model.previous_if_exist();
    assert_eq!(model.state.selected(), None);
}

#[test]
fn steps_never_leave_the_list() {
    let mut model = model_of(4);
    let steps = [true, true, true, true, true, false, true, false, false, false, false, false, true];
    for down in steps {
        if down {
            model.next_if_exist();
        } else {
            model.previous_if_exist();
        }
        let selected = model.state.selected().unwrap();
        assert!(selected < model.items.len());
    }
    assert_eq!(model.state.selected(), Some(1));
}

#[test]
fn clear_resets_entries_and_cursor() {
    let mut model = model_of(5);
    model.state.select(Some(3));
    model.focus();
    model.set_find_text("abc");
    model.clear();
    assert_eq!(model.items.len(), 0);
    assert_eq!(model.state.offset(), 0);
    assert_eq!(model.state.selected(), Some(0));
    assert!(model.state.is_focused());
    assert_eq!(model.state.find_text(), "abc");
}

#[test]
fn unselect_drops_the_selection() {
    let mut model = model_of(2);
    model.unselect();
    assert_eq!(model.state.selected(), None);
    assert_eq!(model.state.offset(), 0);
    assert_eq!(model.items.len(), 2);
}

#[test]
fn focus_and_blur_set_the_flag() {
    let mut model = model_of(1);
    model.focus();
    assert!(model.state.is_focused());
    model.blur();
    assert!(!model.state.is_focused());
    assert_eq!(model.state.selected(), Some(0));
}

#[test]
fn set_find_text_replaces_the_search_text() {
    let mut model = model_of(2);
    model.state.select(Some(1));
    model.set_find_text("error");
    assert_eq!(model.state.find_text(), "error");
    assert_eq!(model.state.selected(), Some(1));
    model.set_find_text("");
    assert_eq!(model.state.find_text(), "");
}

#[test]
fn the_arrows_alone_move() {
    assert_eq!(key_move(press(Key::Down)), Some(Move::Down));
    assert_eq!(key_move(press(Key::Up)), Some(Move::Up));
    assert_eq!(key_move(with_control(Key::Down)), None);
    assert_eq!(key_move(with_control(Key::Up)), None);
    assert_eq!(key_move(KeyPress { key: Key::Down, shift: true, control: false, alt: false }), None);
    assert_eq!(key_move(KeyPress { key: Key::Up, shift: false, control: false, alt: true }), None);
}

#[test]
fn the_letters_move_with_control_alone() {
    assert_eq!(key_move(with_control(Key::Char('n'))), Some(Move::Down));
    assert_eq!(key_move(with_control(Key::Char('p'))), Some(Move::Up));
    assert_eq!(key_move(press(Key::Char('n'))), None);
    assert_eq!(key_move(press(Key::Char('p'))), None);
    assert_eq!(key_move(with_control(Key::Char('N'))), None);
    assert_eq!(key_move(with_control(Key::Char('x'))), None);
    assert_eq!(
        key_move(KeyPress { key: Key::Char('n'), shift: true, control: true, alt: false }),
        None
    );
    assert_eq!(
        key_move(KeyPress { key: Key::Char('p'), shift: false, control: true, alt: true }),
        None
    );
}

#[test]
fn other_keys_do_not_move() {
    assert_eq!(key_move(press(Key::Other)), None);
    assert_eq!(key_move(with_control(Key::Other)), None);
}

#[test]
fn on_key_steps_the_selection() {
    let mut model = model_of(3);
    model.on_key(press(Key::Down));
    assert_eq!(model.state.selected(), Some(1));
    model.on_key(with_control(Key::Char('n')));
    assert_eq!(model.state.selected(), Some(2));
    model.on_key(press(Key::Down));
    assert_eq!(model.state.selected(), Some(2));
    model.on_key(press(Key::Up));
    assert_eq!(model.state.selected(), Some(1));
    model.on_key(with_control(Key::Char('p')));
    assert_eq!(model.state.selected(), Some(0));
    model.on_key(press(Key::Up));
    assert_eq!(model.state.selected(), Some(0));
}

#[test]
fn on_key_ignores_other_keys() {
    let mut model = model_of(3);
    model.state.select(Some(1));
    model.on_key(press(Key::Char('n')));
    model.on_key(press(Key::Other));
    model.on_key(with_control(Key::Down));
    model.on_key(with_control(Key::Char('q')));
    assert_eq!(model.state.selected(), Some(1));
    assert_eq!(model.items.len(), 3);
}

#[test]
fn an_entry_keeps_its_text_and_style() {
    let item = LogListItem::new("text".to_string());
    assert_eq!(item.content(), "text");
    assert_eq!(item.own_style(), CellStyle::default());
    let red = CellStyle { fg: Some(tui::style::Color::Red), ..CellStyle::default() };
    let item = item.style(red);
    assert_eq!(item.content(), "text");
    assert_eq!(item.own_style(), red);
}

#[test]
fn the_height_of_an_entry_is_that_of_its_text() {
    let item = LogListItem::new("the quick brown fox".to_string());
    assert_eq!(item.height(10), 2);
    assert_eq!(item.height(8), 4);
    assert_eq!(item.height(80), 1);
    assert_eq!(LogListItem::new(String::new()).height(5), 1);
}
