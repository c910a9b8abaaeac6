use log_list::canvas::can_draw;
use log_list::window::visible_window;
use log_list::Area;
use log_list::CellStyle;
use log_list::LogList;
use log_list::LogListItem;
use log_list::LogListModel;
use tui::buffer::Buffer;
use tui::buffer::Cell;
use tui::layout::Rect;
use tui::style::Color;
use tui::style::Modifier;

fn fg(color: Color) -> CellStyle {
    CellStyle { fg: Some(color), ..CellStyle::default() }
}

fn bg(color: Color) -> CellStyle {
    CellStyle { bg: Some(color), ..CellStyle::default() }
}

fn model_of(texts: &[&str]) -> LogListModel {
    let mut model = LogListModel::new();
    for text in texts {
        model.push(LogListItem::new(text.to_string()));
    }
    model
}

fn area(x: u16, y: u16, width: u16, height: u16) -> Area {
    Area { x, y, width, height }
}

fn row(buf: &Buffer, y: u16) -> String {
    let left = buf.area.x;
    (left..left + buf.area.width).map(|x| buf.get(x, y).symbol.clone()).collect()
}

fn dotted(width: u16, height: u16) -> Buffer {
    let mut cell = Cell::default();
    cell.set_symbol(".");
    Buffer::filled(Rect::new(0, 0, width, height), &cell)
}

const FIVE_ROWS: &str = "aaaaaaaaaa bbbbbbbbbb cccccccccc dddddddddd eeeeeeeeee";

const FOUR_ROWS: &str = "aaaaaaaaaa bbbbbbbbbb cccccccccc dddddddddd";

#[test]
fn the_window_slides_down_to_the_selection() {
    let model = model_of(&["0", "1", "2", "3", "4"]);
    assert_eq!(visible_window(&model.items, 10, 3, 0, Some(4)), (2, 5));
    assert_eq!(visible_window(&model.items, 10, 3, 0, Some(3)), (1, 4));
}

#[test]
fn the_window_slides_up_to_the_selection() {
    let model = model_of(&["0", "1", "2", "3", "4"]);
    assert_eq!(visible_window(&model.items, 10, 3, 2, Some(0)), (0, 3));
    assert_eq!(visible_window(&model.items, 10, 3, 2, Some(1)), (1, 4));
}

#[test]
fn the_window_stays_while_the_selection_is_inside() {
    let model = model_of(&["0", "1", "2", "3", "4"]);
    assert_eq!(visible_window(&model.items, 10, 3, 1, Some(1)), (1, 4));
    assert_eq!(visible_window(&model.items, 10, 3, 1, Some(2)), (1, 4));
    assert_eq!(visible_window(&model.items, 10, 3, 1, Some(3)), (1, 4));
}

#[test]
fn no_selection_counts_as_the_first_entry() {
    let model = model_of(&["0", "1", "2", "3", "4"]);
    assert_eq!(visible_window(&model.items, 10, 3, 0, None), (0, 3));
    assert_eq!(visible_window(&model.items, 10, 3, 2, None), (0, 3));
}

#[test]
fn a_selection_behind_the_list_counts_as_the_last_entry() {
    let model = model_of(&["0", "1", "2", "3", "4"]);
    assert_eq!(visible_window(&model.items, 10, 3, 0, Some(99)), (2, 5));
}

#[test]
fn a_short_list_is_shown_whole() {
    let model = model_of(&["0", "1"]);
    assert_eq!(visible_window(&model.items, 10, 5, 0, Some(1)), (0, 2));
}

#[test]
fn an_entry_that_sticks_out_is_taken_in() {
    let model = model_of(&["0", FOUR_ROWS, "2"]);
    assert_eq!(visible_window(&model.items, 10, 3, 0, Some(0)), (0, 2));
    assert_eq!(visible_window(&model.items, 10, 3, 0, Some(1)), (0, 2));
}

#[test]
fn a_full_window_takes_in_no_further_entry() {
    let model = model_of(&["0", "1", "2", FOUR_ROWS]);
    assert_eq!(visible_window(&model.items, 10, 3, 0, Some(0)), (0, 3));
}

#[test]
fn the_count_stays_behind_an_entry_that_sticks_out() {
    let model = model_of(&["0", FIVE_ROWS, "2"]);
    assert_eq!(visible_window(&model.items, 10, 3, 0, Some(2)), (1, 3));
}

#[test]
fn an_entry_taller_than_the_viewport_empties_the_window_when_slid_to() {
    let model = model_of(&["0", "1", "2", FOUR_ROWS]);
    assert_eq!(visible_window(&model.items, 10, 3, 0, Some(3)), (3, 3));
    let model = model_of(&[FOUR_ROWS, "1"]);
    assert_eq!(visible_window(&model.items, 10, 3, 1, Some(0)), (0, 0));
}

#[test]
fn drawing_scrolls_down_to_the_selection() {
    let mut model = model_of(&["zero", "one", "two", "three", "four"]);
    let mut buf = Buffer::empty(Rect::new(0, 0, 10, 3));
    model.state.select(Some(4));
    LogList::new(&model.items).render(area(0, 0, 10, 3), &mut buf, &mut model.state);
    assert_eq!(model.state.offset(), 2);
    assert_eq!(model.state.selected(), Some(4));
    assert_eq!(row(&buf, 0), "two       ");
    assert_eq!(row(&buf, 1), "three     ");
    assert_eq!(row(&buf, 2), "four      ");
}

#[test]
fn drawing_scrolls_up_to_the_selection() {
    let mut model = model_of(&["zero", "one", "two", "three", "four"]);
    let mut buf = Buffer::empty(Rect::new(0, 0, 10, 3));
    model.state.select(Some(4));
    LogList::new(&model.items).render(area(0, 0, 10, 3), &mut buf, &mut model.state);
    assert_eq!(model.state.offset(), 2);
    model.state.select(Some(0));
    let mut buf = Buffer::empty(Rect::new(0, 0, 10, 3));
    LogList::new(&model.items).render(area(0, 0, 10, 3), &mut buf, &mut model.state);
    assert_eq!(model.state.offset(), 0);
    assert_eq!(row(&buf, 0), "zero      ");
    assert_eq!(row(&buf, 1), "one       ");
    assert_eq!(row(&buf, 2), "two       ");
}

#[test]
fn drawing_again_keeps_the_scroll_position() {
    let mut model = model_of(&["zero", "one", "two", "three", "four"]);
    model.state.select(Some(3));
    let mut buf = Buffer::empty(Rect::new(0, 0, 10, 3));
    LogList::new(&model.items).render(area(0, 0, 10, 3), &mut buf, &mut model.state);
    assert_eq!(model.state.offset(), 1);
    model.state.select(Some(2));
    let mut again = Buffer::empty(Rect::new(0, 0, 10, 3));
    LogList::new(&model.items).render(area(0, 0, 10, 3), &mut again, &mut model.state);
    assert_eq!(model.state.offset(), 1);
    assert_eq!(again, buf);
}

#[test]
fn a_tall_entry_is_cut_off_at_the_bottom() {
    let mut model = model_of(&[FOUR_ROWS]);
    assert_eq!(model.items[0].height(10), 4);
    let mut buf = Buffer::empty(Rect::new(0, 0, 10, 4));
    LogList::new(&model.items).render(area(0, 0, 10, 3), &mut buf, &mut model.state);
    assert_eq!(model.state.offset(), 0);
    assert_eq!(model.state.selected(), Some(0));
    assert_eq!(row(&buf, 0), "aaaaaaaaaa");
    assert_eq!(row(&buf, 1), "bbbbbbbbbb");
    assert_eq!(row(&buf, 2), "cccccccccc");
    assert_eq!(row(&buf, 3), "          ");
}

#[test]
fn the_last_entry_of_the_window_may_be_cut_off() {
    let mut model = model_of(&["first", FOUR_ROWS, "last"]);
    let mut buf = Buffer::empty(Rect::new(0, 0, 10, 3));
    LogList::new(&model.items).render(area(0, 0, 10, 3), &mut buf, &mut model.state);
    assert_eq!(model.state.offset(), 0);
    assert_eq!(row(&buf, 0), "first     ");
    assert_eq!(row(&buf, 1), "aaaaaaaaaa");
    assert_eq!(row(&buf, 2), "bbbbbbbbbb");
}

#[test]
fn an_entry_that_begins_below_the_rectangle_is_not_drawn() {
    let mut model = model_of(&["first", FIVE_ROWS, "last"]);
    model.state.select(Some(2));
    let mut buf = Buffer::empty(Rect::new(0, 0, 10, 3));
    LogList::new(&model.items).render(area(0, 0, 10, 3), &mut buf, &mut model.state);
    assert_eq!(model.state.offset(), 1);
    assert_eq!(row(&buf, 0), "aaaaaaaaaa");
    assert_eq!(row(&buf, 1), "bbbbbbbbbb");
    assert_eq!(row(&buf, 2), "cccccccccc");
}

#[test]
fn entries_are_wrapped_to_the_width_of_the_rectangle() {
    let mut model = model_of(&["the quick brown fox", "end"]);
    let mut buf = Buffer::empty(Rect::new(0, 0, 10, 4));
    LogList::new(&model.items).render(area(0, 0, 10, 4), &mut buf, &mut model.state);
    assert_eq!(row(&buf, 0), "the quick ");
    assert_eq!(row(&buf, 1), "brown fox ");
    assert_eq!(row(&buf, 2), "end       ");
    assert_eq!(row(&buf, 3), "          ");
}

#[test]
fn nothing_outside_the_rectangle_changes() {
    let mut model = model_of(&["hi", FOUR_ROWS]);
    model.state.select(Some(1));
    let mut buf = dotted(12, 5);
    let list = LogList::new(&model.items)
        .style(fg(Color::Red))
        .highlight_style(bg(Color::Blue));
    list.render(area(1, 1, 10, 3), &mut buf, &mut model.state);
    assert_eq!(row(&buf, 0), "............");
    assert_eq!(row(&buf, 1), ".hi.........");
    assert_eq!(row(&buf, 2), ".aaaaaaaaaa.");
    assert_eq!(row(&buf, 3), ".bbbbbbbbbb.");
    assert_eq!(row(&buf, 4), "............");
    let untouched = dotted(12, 5);
    for y in 0..5u16 {
        for x in 0..12u16 {
            let inside = 1 <= x && x < 11 && 1 <= y && y < 4;
            if !inside {
                assert_eq!(buf.get(x, y), untouched.get(x, y));
            }
        }
    }
}

#[test]
fn an_empty_rectangle_draws_nothing() {
    let mut model = model_of(&["zero", "one", "two", "three"]);
    model.state.select(Some(3));
    let mut buf = dotted(10, 3);
    LogList::new(&model.items).render(area(0, 0, 0, 3), &mut buf, &mut model.state);
    LogList::new(&model.items).render(area(0, 0, 10, 0), &mut buf, &mut model.state);
    assert_eq!(buf, dotted(10, 3));
    assert_eq!(model.state.offset(), 0);
    assert_eq!(model.state.selected(), Some(3));
}

#[test]
fn an_empty_list_draws_nothing() {
    let mut model = LogListModel::new();
    let mut buf = dotted(10, 3);
    LogList::new(&model.items).render(area(0, 0, 10, 3), &mut buf, &mut model.state);
    assert_eq!(buf, dotted(10, 3));
    assert_eq!(model.state.offset(), 0);
    assert_eq!(model.state.selected(), Some(0));
}

#[test]
fn the_style_of_the_list_lies_under_every_entry() {
    let mut model = model_of(&["one", "two"]);
    let mut buf = Buffer::empty(Rect::new(0, 0, 5, 3));
    let list = LogList::new(&model.items).style(fg(Color::Red));
    list.render(area(0, 0, 5, 3), &mut buf, &mut model.state);
    for x in 0..5u16 {
        assert_eq!(buf.get(x, 0).fg, Color::Red);
        assert_eq!(buf.get(x, 1).fg, Color::Red);
        assert_eq!(buf.get(x, 2).fg, Color::Reset);
    }
}

#[test]
fn the_style_of_an_entry_lies_on_that_of_the_list() {
    let mut model = LogListModel::new();
    model.push(LogListItem::new("one".to_string()).style(bg(Color::Green)));
    model.push(LogListItem::new("two".to_string()).style(fg(Color::Cyan)));
    model.push(LogListItem::new("three".to_string()));
    model.unselect();
    let mut buf = Buffer::empty(Rect::new(0, 0, 5, 3));
    let list = LogList::new(&model.items).style(fg(Color::Red));
    list.render(area(0, 0, 5, 3), &mut buf, &mut model.state);
    assert_eq!(buf.get(4, 0).fg, Color::Red);
    assert_eq!(buf.get(4, 0).bg, Color::Green);
    assert_eq!(buf.get(4, 1).fg, Color::Cyan);
    assert_eq!(buf.get(4, 1).bg, Color::Reset);
    assert_eq!(buf.get(4, 2).fg, Color::Red);
    assert_eq!(buf.get(4, 2).bg, Color::Reset);
}

#[test]
fn an_entry_without_any_style_keeps_the_cells_as_they_are() {
    let mut model = model_of(&["one"]);
    model.unselect();
    let mut cell = Cell::default();
    cell.set_fg(Color::Magenta);
    let mut buf = Buffer::filled(Rect::new(0, 0, 5, 1), &cell);
    LogList::new(&model.items).render(area(0, 0, 5, 1), &mut buf, &mut model.state);
    assert_eq!(row(&buf, 0), "one  ");
    for x in 0..5u16 {
        assert_eq!(buf.get(x, 0).fg, Color::Magenta);
    }
}

#[test]
fn the_highlight_lies_on_the_selected_entry_only() {
    let mut model = model_of(&["one", "two", "three"]);
    model.state.select(Some(1));
    let mut buf = Buffer::empty(Rect::new(0, 0, 5, 3));
    let list = LogList::new(&model.items)
        .style(bg(Color::Black))
        .highlight_style(bg(Color::Blue));
    list.render(area(0, 0, 5, 3), &mut buf, &mut model.state);
    for x in 0..5u16 {
        assert_eq!(buf.get(x, 0).bg, Color::Black);
        assert_eq!(buf.get(x, 1).bg, Color::Blue);
        assert_eq!(buf.get(x, 2).bg, Color::Black);
    }
}

#[test]
fn a_selection_behind_the_list_highlights_nothing() {
    let mut model = model_of(&["one", "two"]);
    model.state.select(Some(5));
    let mut buf = Buffer::empty(Rect::new(0, 0, 5, 2));
    let list = LogList::new(&model.items).highlight_style(bg(Color::Blue));
    list.render(area(0, 0, 5, 2), &mut buf, &mut model.state);
    assert_eq!(model.state.selected(), Some(5));
    assert_eq!(model.state.offset(), 0);
    for x in 0..5u16 {
        assert_eq!(buf.get(x, 0).bg, Color::Reset);
        assert_eq!(buf.get(x, 1).bg, Color::Reset);
    }
}

#[test]
fn occurrences_of_the_search_text_are_drawn_in_their_style() {
    let mut model = model_of(&["an error", "fine"]);
    model.set_find_text("error");
    let mut buf = Buffer::empty(Rect::new(0, 0, 10, 2));
    let list = LogList::new(&model.items).match_style(fg(Color::Yellow));
    list.render(area(0, 0, 10, 2), &mut buf, &mut model.state);
    assert_eq!(row(&buf, 0), "an error  ");
    assert_eq!(row(&buf, 1), "fine      ");
    for x in 0..10u16 {
        let marked = 3 <= x && x < 8;
        assert_eq!(buf.get(x, 0).fg, if marked { Color::Yellow } else { Color::Reset });
        assert_eq!(buf.get(x, 1).fg, Color::Reset);
    }
}

#[test]
fn the_search_text_does_not_move_the_rows() {
    let mut plain = model_of(&["the quick brown fox", "next"]);
    let mut marked = model_of(&["the quick brown fox", "next"]);
    marked.set_find_text("quick brown");
    let mut first = Buffer::empty(Rect::new(0, 0, 10, 3));
    let mut second = Buffer::empty(Rect::new(0, 0, 10, 3));
    LogList::new(&plain.items).render(area(0, 0, 10, 3), &mut first, &mut plain.state);
    LogList::new(&marked.items).render(area(0, 0, 10, 3), &mut second, &mut marked.state);
    assert_eq!(first, second);
}

#[test]
fn can_draw_tells_whether_the_rectangle_lies_in_the_buffer() {
    let buf = Buffer::empty(Rect::new(2, 3, 10, 5));
    assert!(can_draw(&buf, area(2, 3, 10, 5)));
    assert!(can_draw(&buf, area(4, 4, 3, 2)));
    assert!(can_draw(&buf, area(12, 8, 0, 0)));
    assert!(!can_draw(&buf, area(1, 3, 10, 5)));
    assert!(!can_draw(&buf, area(2, 2, 10, 5)));
    assert!(!can_draw(&buf, area(2, 3, 11, 5)));
    assert!(!can_draw(&buf, area(2, 3, 10, 6)));
    assert!(!can_draw(&buf, area(0, 0, 1, 1)));
}

#[test]
fn can_draw_refuses_a_buffer_with_too_few_cells() {
    let mut buf = Buffer::empty(Rect::new(0, 0, 10, 5));
    buf.content.truncate(49);
    assert!(!can_draw(&buf, area(0, 0, 10, 5)));
    let empty = Buffer::empty(Rect::new(0, 0, 0, 0));
    assert!(can_draw(&empty, area(0, 0, 0, 0)));
    assert!(!can_draw(&empty, area(0, 0, 1, 1)));
}

#[test]
fn render_checked_draws_where_the_rectangle_lies_in_the_buffer() {
    let mut model = model_of(&["zero", "one", "two", "three", "four"]);
    model.state.select(Some(4));
    let mut buf = Buffer::empty(Rect::new(0, 0, 10, 3));
    let done = LogList::new(&model.items).render_checked(area(0, 0, 10, 3), &mut buf, &mut model.state);
    assert!(done);
    assert_eq!(model.state.offset(), 2);
    assert_eq!(row(&buf, 2), "four      ");
}

#[test]
fn render_checked_refuses_a_rectangle_outside_the_buffer() {
    let mut model = model_of(&["zero", "one", "two", "three", "four"]);
    model.state.select(Some(4));
    let mut buf = dotted(10, 3);
    let done = LogList::new(&model.items).render_checked(area(0, 0, 10, 4), &mut buf, &mut model.state);
    assert!(!done);
    assert_eq!(buf, dotted(10, 3));
    assert_eq!(model.state.offset(), 0);
    assert_eq!(model.state.selected(), Some(4));
}

#[test]
fn render_checked_refuses_a_scroll_position_behind_the_list() {
    let mut long = model_of(&["0", "1", "2", "3", "4", "5", "6", "7"]);
    long.state.select(Some(7));
    let mut buf = Buffer::empty(Rect::new(0, 0, 10, 3));
    assert!(LogList::new(&long.items).render_checked(area(0, 0, 10, 3), &mut buf, &mut long.state));
    assert_eq!(long.state.offset(), 5);
    let short = model_of(&["0", "1"]);
    let mut buf = dotted(10, 3);
    let done = LogList::new(&short.items).render_checked(area(0, 0, 10, 3), &mut buf, &mut long.state);
    assert!(!done);
    assert_eq!(buf, dotted(10, 3));
    assert_eq!(long.state.offset(), 5);
}

#[test]
fn render_checked_accepts_what_draws_nothing() {
    let mut model = LogListModel::new();
    let mut buf = dotted(10, 3);
    assert!(LogList::new(&model.items).render_checked(area(50, 50, 10, 3), &mut buf, &mut model.state));
    let mut model = model_of(&["zero"]);
    assert!(LogList::new(&model.items).render_checked(area(50, 50, 0, 3), &mut buf, &mut model.state));
    assert_eq!(buf, dotted(10, 3));
}

#[test]
fn the_selected_entry_begins_inside_the_rectangle() {
    let mut model = model_of(&["0", "1 1 1 1 1 1", "2", "3", "4 4 4 4 4 4", "5", "6"]);
    let heights: Vec<usize> = model.items.iter().map(|item| item.height(10)).collect();
    assert_eq!(heights, vec![1, 2, 1, 1, 2, 1, 1]);
    let picks = [0usize, 3, 6, 5, 1, 4, 2, 6, 0, 4, 5, 3];
    for pick in picks {
        model.state.select(Some(pick));
        let mut buf = Buffer::empty(Rect::new(0, 0, 10, 4));
        LogList::new(&model.items).render(area(0, 0, 10, 4), &mut buf, &mut model.state);
        let offset = model.state.offset();
        assert!(offset <= pick);
        let above: usize = heights[offset..pick].iter().sum();
        assert!(above < 4);
        let first_row = model.items[pick].content().chars().next().unwrap().to_string();
        assert_eq!(buf.get(0, above as u16).symbol, first_row);
    }
}

#[test]
fn the_scroll_position_is_an_entry_at_or_above_the_selection() {
    let mut model = model_of(&["0", FIVE_ROWS, "2", FOUR_ROWS, "4"]);
    for offset_seed in 0..5usize {
        for pick in 0..7usize {
            model.state.select(Some(offset_seed));
            let mut buf = Buffer::empty(Rect::new(0, 0, 10, 3));
            LogList::new(&model.items).render(area(0, 0, 10, 3), &mut buf, &mut model.state);
            model.state.select(Some(pick));
            LogList::new(&model.items).render(area(0, 0, 10, 3), &mut buf, &mut model.state);
            assert!(model.state.offset() < model.items.len());
            assert!(model.state.offset() <= pick.min(model.items.len() - 1));
        }
    }
    model.unselect();
    let mut buf = Buffer::empty(Rect::new(0, 0, 10, 3));
    LogList::new(&model.items).render(area(0, 0, 10, 3), &mut buf, &mut model.state);
    assert_eq!(model.state.offset(), 0);
}

#[test]
fn modifiers_are_switched_on_and_off() {
    let mut model = model_of(&["one", "two"]);
    model.state.select(Some(1));
    let mut cell = Cell::default();
    cell.modifier = Modifier::ITALIC | Modifier::DIM;
    let mut buf = Buffer::filled(Rect::new(0, 0, 5, 3), &cell);
    let bold = CellStyle {
        add_modifier: Modifier::BOLD.bits(),
        sub_modifier: Modifier::ITALIC.bits(),
        ..CellStyle::default()
    };
    let reversed = CellStyle {
        add_modifier: Modifier::REVERSED.bits() | 0x8000,
        sub_modifier: Modifier::BOLD.bits() | 0x4000,
        ..CellStyle::default()
    };
    let list = LogList::new(&model.items).style(bold).highlight_style(reversed);
    list.render(area(0, 0, 5, 3), &mut buf, &mut model.state);
    for x in 0..5u16 {
        assert_eq!(buf.get(x, 0).modifier, Modifier::BOLD | Modifier::DIM);
        assert_eq!(buf.get(x, 1).modifier, Modifier::REVERSED | Modifier::DIM);
        assert_eq!(buf.get(x, 2).modifier, Modifier::ITALIC | Modifier::DIM);
    }
}

#[test]
fn the_style_of_an_occurrence_lies_on_the_highlight() {
    let mut model = model_of(&["an error"]);
    model.set_find_text("error");
    let mut buf = Buffer::empty(Rect::new(0, 0, 10, 1));
    let list = LogList::new(&model.items)
        .style(fg(Color::Red))
        .highlight_style(CellStyle { fg: Some(Color::White), bg: Some(Color::Blue), ..CellStyle::default() })
        .match_style(fg(Color::Yellow));
    list.render(area(0, 0, 10, 1), &mut buf, &mut model.state);
    for x in 0..10u16 {
        let marked = 3 <= x && x < 8;
        assert_eq!(buf.get(x, 0).fg, if marked { Color::Yellow } else { Color::White });
        assert_eq!(buf.get(x, 0).bg, Color::Blue);
    }
}
