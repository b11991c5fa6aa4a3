use minigrep::search;
use minigrep::search_case_insensitive;
use minigrep::search_with;
use minigrep::split_lines;

#[test]
fn split_on_newlines() {
    assert_eq!(vec!["a", "b", "c"], split_lines("a\nb\nc"));
}

#[test]
fn trailing_newline_adds_no_line() {
    assert_eq!(vec!["a"], split_lines("a\n"));
    assert_eq!(vec!["a", "b"], split_lines("a\nb\n"));
}

#[test]
fn empty_content_has_no_lines() {
    assert_eq!(Vec::<&str>::new(), split_lines(""));
    assert_eq!(vec![""], split_lines("\n"));
}

#[test]
fn carriage_return_belongs_to_the_terminator() {
    assert_eq!(vec!["one", "two"], split_lines("one\r\ntwo\r\n"));
    assert_eq!(vec!["one", "two"], split_lines("one\r\ntwo"));
}

#[test]
fn lone_trailing_carriage_return_stays() {
    assert_eq!(vec!["one\r"], split_lines("one\r"));
    assert_eq!(vec!["a\rb"], split_lines("a\rb"));
}

#[test]
fn blank_lines_are_kept() {
    assert_eq!(vec!["a", "", "b"], split_lines("a\n\nb"));
}

#[test]
fn highlight_wraps_the_matched_span() {
    let contents = "\
Rust:
safe, fast, productive.
Pick three.
Duct tape.";
    assert_eq!(
        vec!["safe, fast, pro\u{1b}[1mduct\u{1b}[0mive."],
        search_with("duct", contents, false, true)
    );
}

#[test]
fn highlight_marks_only_the_first_occurrence() {
    assert_eq!(
        vec!["b\u{1b}[1ma\u{1b}[0mnana"],
        search_with("a", "banana", false, true)
    );
}

#[test]
fn highlight_case_insensitive_keeps_original_casing() {
    let contents = "\
Rust:
safe, fast, productive.
Pick three.
Trust me.";
    assert_eq!(
        vec![
            "\u{1b}[1mRust\u{1b}[0m:",
            "T\u{1b}[1mrust\u{1b}[0m me."
        ],
        search_with("rUsT", contents, true, true)
    );
}

#[test]
fn search_with_plain_mode_agrees_with_search() {
    let contents = "Rust:\nsafe, fast, productive.\nPick three.\nTrust me.";
    let plain: Vec<String> = search("t", contents).iter().map(|s| s.to_string()).collect();
    assert_eq!(plain, search_with("t", contents, false, false));
    let folded: Vec<String> = search_case_insensitive("rust", contents)
        .iter()
        .map(|s| s.to_string())
        .collect();
    assert_eq!(folded, search_with("rust", contents, true, false));
}

#[test]
fn highlight_with_empty_query_inserts_markers_up_front() {
    assert_eq!(
        vec!["\u{1b}[1m\u{1b}[0mab"],
        search_with("", "ab", false, true)
    );
}
