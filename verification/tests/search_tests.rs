use minigrep::search::search;
use minigrep::search::search_case_insensitive;

#[test]
fn case_sensitive() {
    let query = "duct";
    let contents = "\
Rust:
safe, fast, productive.
Pick three.
Duct tape.";

    assert_eq!(vec!["safe, fast, productive."], search(query, contents));
}

#[test]
fn case_insensitive() {
    let query = "rUsT";
    let contents = "\
Rust:
safe, fast, productive.
Pick three.
Trust me.";

    assert_eq!(
        vec!["Rust:", "Trust me."],
        search_case_insensitive(query, contents)
    );
}

#[test]
fn exact_subsequence_of_matching_lines() {
    let contents = "abc\nxbx\nabcabc\nnope\nABC";
    assert_eq!(vec!["abc", "abcabc"], search("abc", contents));
}

#[test]
fn empty_query_matches_every_line_sensitive() {
    let contents = "one\ntwo\nthree";
    assert_eq!(vec!["one", "two", "three"], search("", contents));
}

#[test]
fn empty_query_matches_every_line_insensitive() {
    let contents = "one\ntwo\nthree";
    assert_eq!(vec!["one", "two", "three"], search_case_insensitive("", contents));
}

#[test]
fn insensitive_matches_at_least_as_many_lines() {
    let contents = "Rust:\nrust is great\nRUST\ntrust\nnothing here";
    let sensitive = search("rust", contents);
    let insensitive = search_case_insensitive("rust", contents);
    assert!(insensitive.len() >= sensitive.len());
    assert_eq!(vec!["rust is great", "trust"], sensitive);
    assert_eq!(
        vec!["Rust:", "rust is great", "RUST", "trust"],
        insensitive
    );
}

#[test]
fn insensitive_returns_original_casing() {
    let contents = "MiXeD CaSe LiNe";
    assert_eq!(vec!["MiXeD CaSe LiNe"], search_case_insensitive("mixed case", contents));
}

#[test]
fn no_match_returns_no_lines() {
    let contents = "alpha\nbeta";
    assert!(search("gamma", contents).is_empty());
    assert!(search_case_insensitive("gamma", contents).is_empty());
}

#[test]
fn empty_contents_has_no_lines() {
    assert!(search("", "").is_empty());
    assert!(search("x", "").is_empty());
}

#[test]
fn trailing_newline_adds_no_empty_line() {
    let contents = "a\nb\n";
    assert_eq!(vec!["a", "b"], search("", contents));
}

#[test]
fn carriage_return_before_newline_is_stripped() {
    let contents = "one\r\ntwo\r\nthree";
    assert_eq!(vec!["one", "two", "three"], search("", contents));
    assert_eq!(vec!["two"], search("two", contents));
}

#[test]
fn lone_carriage_return_stays_in_line() {
    let contents = "a\rb\nlast\r";
    assert_eq!(vec!["a\rb", "last\r"], search("", contents));
}

#[test]
fn query_spanning_line_break_never_matches() {
    let contents = "ab\ncd";
    assert!(search("b\nc", contents).is_empty());
}

#[test]
fn non_ascii_lines_match_exactly() {
    let contents = "caf\u{e9} au lait\nplain tea";
    assert_eq!(vec!["caf\u{e9} au lait"], search("caf\u{e9}", contents));
}
