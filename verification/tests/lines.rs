use pf::lines::{join_lines, select_lines, split_lines};

fn strings(items: &[&str]) -> Vec<String> {
    items.iter().map(|s| s.to_string()).collect()
}

#[test]
fn first_lines_of_four() {
    assert_eq!(select_lines("a\nb\nc\nd", 2, false), strings(&["a", "b"]));
}

#[test]
fn last_lines_of_four() {
    assert_eq!(select_lines("a\nb\nc\nd", 2, true), strings(&["c", "d"]));
}

#[test]
fn last_two_against_numbered_file() {
    let content = "1\n2\n3\n4";
    let window = select_lines(content, 2, true);
    assert_eq!(window, strings(&["3", "4"]));
    assert_eq!(join_lines(&window), "3\n4");
}

#[test]
fn zero_lines_from_either_end() {
    assert_eq!(select_lines("a\nb\nc", 0, false), strings(&[]));
    assert_eq!(select_lines("a\nb\nc", 0, true), strings(&[]));
    assert_eq!(select_lines("", 0, false), strings(&[]));
    assert_eq!(select_lines("", 0, true), strings(&[]));
}

#[test]
fn oversized_window_is_all_lines_both_ways() {
    let first = select_lines("x\ny", 10, false);
    let last = select_lines("x\ny", 10, true);
    assert_eq!(first, strings(&["x", "y"]));
    assert_eq!(first, last);
}

#[test]
fn window_of_exact_line_count() {
    assert_eq!(select_lines("x\ny", 2, false), strings(&["x", "y"]));
    assert_eq!(select_lines("x\ny", 2, true), strings(&["x", "y"]));
}

#[test]
fn piped_text_with_default_settings() {
    let piped = strings(&["a", "b", "c"]);
    let content = join_lines(&piped);
    assert_eq!(content, "a\nb\nc");
    let window = select_lines(&content, 10, false);
    assert_eq!(window, strings(&["a", "b", "c"]));
    assert_eq!(join_lines(&window), "a\nb\nc");
}

#[test]
fn split_empty_text_has_no_lines() {
    assert_eq!(split_lines(""), strings(&[]));
}

#[test]
fn split_lone_newline_is_one_empty_line() {
    assert_eq!(split_lines("\n"), strings(&[""]));
}

#[test]
fn split_discards_single_trailing_newline() {
    assert_eq!(split_lines("a\nb\n"), strings(&["a", "b"]));
    assert_eq!(split_lines("a\nb"), strings(&["a", "b"]));
}

#[test]
fn split_keeps_empty_middle_lines() {
    assert_eq!(split_lines("a\n\nb"), strings(&["a", "", "b"]));
    assert_eq!(split_lines("\n\n"), strings(&["", ""]));
}

#[test]
fn split_drops_carriage_return_before_newline_only() {
    assert_eq!(split_lines("a\r\nb\r\n"), strings(&["a", "b"]));
    assert_eq!(split_lines("a\r"), strings(&["a\r"]));
    assert_eq!(split_lines("\r\n"), strings(&[""]));
}

#[test]
fn join_edge_cases() {
    assert_eq!(join_lines(&strings(&[])), "");
    assert_eq!(join_lines(&strings(&[""])), "");
    assert_eq!(join_lines(&strings(&["", ""])), "\n");
    assert_eq!(join_lines(&strings(&["only"])), "only");
}

#[test]
fn select_on_unicode_text() {
    assert_eq!(
        select_lines("f\u{00e9}e\ngr\u{00fc}n\n\u{4e16}\u{754c}", 2, true),
        strings(&["gr\u{00fc}n", "\u{4e16}\u{754c}"])
    );
}
