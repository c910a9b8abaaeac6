use log_list::compose::compose;
use log_list::compose::height;
use log_list::compose::to_chars;
use log_list::compose::DisplayLine;
use log_list::wrap::wrap;

fn row_text(row: &DisplayLine) -> String {
    row.spans.iter().flat_map(|piece| piece.text.iter()).collect()
}

fn texts(text: &str, width: u16) -> Vec<String> {
    compose(text, width, "").iter().map(row_text).collect()
}

#[test]
fn empty_text_is_one_empty_row() {
    let rows = compose("", 10, "");
    assert_eq!(rows.len(), 1);
    assert!(rows[0].spans.is_empty());
    assert_eq!(height("", 10), 1);
}

#[test]
fn short_text_is_one_row() {
    assert_eq!(texts("hello", 10), vec!["hello"]);
    assert_eq!(texts("0123456789", 10), vec!["0123456789"]);
    assert_eq!(height("0123456789", 10), 1);
}

#[test]
fn words_are_packed_greedily() {
    assert_eq!(texts("the quick brown fox", 10), vec!["the quick", "brown fox"]);
    assert_eq!(texts("the quick brown fox", 9), vec!["the quick", "brown fox"]);
    assert_eq!(texts("the quick brown fox", 8), vec!["the", "quick", "brown", "fox"]);
    assert_eq!(height("the quick brown fox", 8), 4);
}

#[test]
fn a_line_may_fill_the_width_exactly() {
    assert_eq!(texts("abcd efgh", 4), vec!["abcd", "efgh"]);
}

#[test]
fn a_long_word_is_broken_at_the_width() {
    assert_eq!(texts("abcdefghij", 4), vec!["abcd", "efgh", "ij"]);
    assert_eq!(texts("ab cdefgh", 4), vec!["ab", "cdef", "gh"]);
}

#[test]
fn width_of_one_cell() {
    assert_eq!(texts("ab c", 1), vec!["a", "b", "c"]);
    assert_eq!(height("ab c", 1), 3);
}

#[test]
fn line_feeds_force_new_rows() {
    assert_eq!(texts("a\nb", 10), vec!["a", "b"]);
    assert_eq!(texts("a\n", 10), vec!["a", ""]);
    assert_eq!(texts("\n", 10), vec!["", ""]);
    assert_eq!(texts("one two\nthree", 5), vec!["one", "two", "three"]);
    assert_eq!(height("a\n\nb", 10), 3);
}

#[test]
fn blanks_at_a_cut_are_dropped() {
    assert_eq!(texts("foo   bar", 5), vec!["foo  ", "bar"]);
    assert_eq!(texts("foo    ", 3), vec!["foo"]);
}

#[test]
fn blanks_inside_a_line_are_kept() {
    assert_eq!(texts("a  b", 10), vec!["a  b"]);
    assert_eq!(texts(" ab", 2), vec![" a", "b"]);
}

#[test]
fn every_row_fits_the_width() {
    let text = "Lorem ipsum dolor sit amet, consectetur adipiscing elit, sed do eiusmod";
    for width in 1..30u16 {
        for row in texts(text, width) {
            assert!(row.chars().count() <= width as usize);
        }
    }
}

#[test]
fn wrap_returns_the_range_of_each_row() {
    let chars = to_chars("the quick brown fox");
    assert_eq!(wrap(&chars, 10), vec![(0, 9), (10, 19)]);
    let chars = to_chars("a\n");
    assert_eq!(wrap(&chars, 10), vec![(0, 1), (2, 2)]);
}

#[test]
fn to_chars_keeps_every_character() {
    assert_eq!(to_chars("héllo"), vec!['h', 'é', 'l', 'l', 'o']);
    assert!(to_chars("").is_empty());
}

#[test]
fn height_is_the_number_of_rows() {
    let samples = ["", "a", "the quick brown fox", "abcdefghij", "a\nb\n", "foo   bar"];
    for text in samples {
        for width in 1..12u16 {
            assert_eq!(compose(text, width, "").len(), height(text, width));
            assert_eq!(compose(text, width, "o").len(), height(text, width));
        }
    }
}

#[test]
fn composing_twice_gives_the_same_rows() {
    assert_eq!(compose("the quick brown fox", 7, "qu"), compose("the quick brown fox", 7, "qu"));
}

#[test]
fn four_rows_at_width_ten() {
    let text = "aaaaaaaaaa bbbbbbbbbb cccccccccc dddddddddd";
    assert_eq!(height(text, 10), 4);
    assert_eq!(texts(text, 10), vec!["aaaaaaaaaa", "bbbbbbbbbb", "cccccccccc", "dddddddddd"]);
}

#[test]
fn the_rows_take_up_the_text_in_order() {
    let samples = [
        "",
        " ",
        "the quick brown fox",
        "  leading and trailing  ",
        "a\n\nb\n",
        "abcdefghijklmnopqrstuvwxyz",
        "one  two   three    four\nfive",
    ];
    for text in samples {
        let chars = to_chars(text);
        for width in 1..9u16 {
            let lines = wrap(&chars, width);
            assert!(!lines.is_empty());
            assert_eq!(lines[0].0, 0);
            let mut at = 0;
            for (from, to) in lines {
                assert!(at <= from && from <= to && to <= chars.len());
                assert!(to - from <= width as usize);
                assert!(chars[at..from].iter().all(|c| *c == ' ' || *c == '\n'));
                assert!(chars[from..to].iter().all(|c| *c != '\n'));
                at = to;
            }
            assert!(chars[at..].iter().all(|c| *c == ' ' || *c == '\n'));
        }
    }
}

#[test]
fn a_row_ends_only_where_the_next_word_does_not_fit() {
    let text = "a bb ccc dddd eeeee ffffff";
    let chars = to_chars(text);
    for width in 1..12u16 {
        let lines = wrap(&chars, width);
        for pair in lines.windows(2) {
            let (from, _) = pair[0];
            let (next, _) = pair[1];
            let reach = from + width as usize;
            assert!(reach < chars.len());
            assert!(chars[next.min(reach + 1)..=reach].iter().all(|c| *c != ' '));
        }
    }
}
