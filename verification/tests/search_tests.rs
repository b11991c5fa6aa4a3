use minigrep::search;
use minigrep::search_case_insensitive;

#[test]
fn case_sensitive() {
    let query = "duct";
    let contents = "\
Rust:
safe, fast, productive.
Pick three.
Duct tape.";

    assert_eq!(vec!["safe, fast, productive."], search(query, contents));
}

#[test]
fn case_insensitive() {
    let query = "rUsT";
    let contents = "\
Rust:
safe, fast, productive.
Pick three.
Trust me.";

    assert_eq!(
        vec!["Rust:", "Trust me."],
        search_case_insensitive(query, contents)
    );
}

#[test]
fn empty_query_matches_every_line() {
    let contents = "one\ntwo\nthree";
    assert_eq!(vec!["one", "two", "three"], search("", contents));
    assert_eq!(
        vec!["one", "two", "three"],
        search_case_insensitive("", contents)
    );
}

#[test]
fn empty_content_has_no_matches() {
    assert_eq!(Vec::<&str>::new(), search("x", ""));
    assert_eq!(Vec::<&str>::new(), search("", ""));
    assert_eq!(Vec::<&str>::new(), search_case_insensitive("x", ""));
}

#[test]
fn no_match_yields_empty_result() {
    let contents = "alpha\nbeta";
    assert_eq!(Vec::<&str>::new(), search("gamma", contents));
}

#[test]
fn case_insensitive_includes_case_sensitive_matches() {
    let query = "rust";
    let contents = "Rust:\nrust is fun.\nentrusted\nnothing here";
    let sensitive = search(query, contents);
    let insensitive = search_case_insensitive(query, contents);
    for line in &sensitive {
        assert!(insensitive.contains(line));
    }
    assert_eq!(vec!["rust is fun.", "entrusted"], sensitive);
    assert_eq!(vec!["Rust:", "rust is fun.", "entrusted"], insensitive);
}

#[test]
fn search_is_deterministic() {
    let query = "prod";
    let contents = "Rust:\nsafe, fast, productive.\nPick three.";
    assert_eq!(search(query, contents), search(query, contents));
    assert_eq!(
        search_case_insensitive(query, contents),
        search_case_insensitive(query, contents)
    );
}

#[test]
fn last_line_without_newline_is_searched() {
    assert_eq!(vec!["Pick three"], search("three", "Pick three"));
    assert_eq!(vec!["b"], search("b", "a\nb"));
}

#[test]
fn original_casing_is_preserved() {
    let contents = "SHOUTING LINE\nquiet line";
    assert_eq!(
        vec!["SHOUTING LINE"],
        search_case_insensitive("shouting", contents)
    );
}

#[test]
fn unicode_case_folding_matches() {
    let contents = "GRO\u{1e9e}E\nklein";
    assert_eq!(
        vec!["GRO\u{1e9e}E"],
        search_case_insensitive("gro\u{df}e", contents)
    );
}
