use log_list::compose::compose;
use log_list::compose::to_chars;
use log_list::compose::DisplayLine;
use log_list::highlight::find_match;
use log_list::highlight::mark;
use log_list::highlight::matches_at;

fn pieces(line: &str, query: &str) -> Vec<(String, bool)> {
    mark(&to_chars(line), &to_chars(query))
        .iter()
        .map(|piece| (piece.text.iter().collect(), piece.matched))
        .collect()
}

fn piece(text: &str, matched: bool) -> (String, bool) {
    (text.to_string(), matched)
}

fn row_text(row: &DisplayLine) -> String {
    row.spans.iter().flat_map(|piece| piece.text.iter()).collect()
}

#[test]
fn an_empty_search_text_marks_nothing() {
    assert_eq!(pieces("error: no error", ""), vec![piece("error: no error", false)]);
}

#[test]
fn an_empty_line_has_no_piece() {
    assert!(pieces("", "").is_empty());
    assert!(pieces("", "x").is_empty());
}

#[test]
fn every_occurrence_is_a_piece_of_its_own() {
    assert_eq!(
        pieces("error: no error", "error"),
        vec![piece("error", true), piece(": no ", false), piece("error", true)]
    );
    assert_eq!(pieces("a fox", "fox"), vec![piece("a ", false), piece("fox", true)]);
    assert_eq!(pieces("fox", "fox"), vec![piece("fox", true)]);
}

#[test]
fn occurrences_do_not_overlap() {
    assert_eq!(pieces("aaa", "aa"), vec![piece("aa", true), piece("a", false)]);
    assert_eq!(pieces("aaaa", "aa"), vec![piece("aa", true), piece("aa", true)]);
}

#[test]
fn the_search_tells_upper_from_lower_case() {
    assert_eq!(pieces("Error", "error"), vec![piece("Error", false)]);
}

#[test]
fn a_search_text_longer_than_the_line_occurs_nowhere() {
    assert_eq!(pieces("ab", "abc"), vec![piece("ab", false)]);
}

#[test]
fn matches_at_compares_character_by_character() {
    let line = to_chars("hello");
    assert!(matches_at(&line, &to_chars("ell"), 1));
    assert!(!matches_at(&line, &to_chars("ell"), 0));
    assert!(matches_at(&line, &to_chars(""), 5));
}

#[test]
fn find_match_returns_the_first_occurrence_or_the_length() {
    let line = to_chars("abcabc");
    assert_eq!(find_match(&line, &to_chars("bc"), 0), 1);
    assert_eq!(find_match(&line, &to_chars("bc"), 2), 4);
    assert_eq!(find_match(&line, &to_chars("bc"), 5), 6);
    assert_eq!(find_match(&line, &to_chars("x"), 0), 6);
}

#[test]
fn marking_changes_no_character() {
    let samples = ["", "the quick brown fox", "aaaa", "error: no error\nat all"];
    let queries = ["", "a", "aa", "error", "quick brown", "zzz"];
    for text in samples {
        for width in 1..12u16 {
            let plain: Vec<String> = compose(text, width, "").iter().map(row_text).collect();
            for query in queries {
                let marked: Vec<String> =
                    compose(text, width, query).iter().map(row_text).collect();
                assert_eq!(marked, plain);
            }
        }
    }
}

#[test]
fn occurrences_are_sought_in_each_row() {
    let rows = compose("the quick brown fox", 10, "o");
    assert_eq!(rows.len(), 2);
    assert_eq!(rows[0].spans.len(), 1);
    assert!(!rows[0].spans[0].matched);
    let second: Vec<(String, bool)> =
        rows[1].spans.iter().map(|p| (p.text.iter().collect(), p.matched)).collect();
    assert_eq!(
        second,
        vec![piece("br", false), piece("o", true), piece("wn f", false), piece("o", true), piece("x", false)]
    );
}
