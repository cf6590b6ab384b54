use minigrep::search;
use minigrep::search_case_insensitive;
use minigrep::search_new;
use minigrep::search_with_config;
use minigrep::split_lines;
use minigrep::Config;

#[test]
fn case_sensitive() {
    let query = "duct";
    let contents = "\
Rust:
safe, fast, productive.
Pick three.";

    assert_eq!(vec!["safe, fast, productive."], search(query, contents));
}

#[test]
fn case_insensitive() {
    let query = "rUsT";
    let contents = "\
Rust:
safe, fast, productive.
Pick three.
Trust me.";

    assert_eq!(
        vec!["Rust:", "Trust me."],
        search_case_insensitive(query, contents)
    );
}

#[test]
fn search_new_agrees_with_search() {
    let query = "duct";
    let contents = "\
Rust:
safe, fast, productive.
Pick three.";

    assert_eq!(vec!["safe, fast, productive."], search_new(query, contents));
    assert_eq!(search(query, contents), search_new(query, contents));
}

#[test]
fn empty_query_matches_every_line() {
    let contents = "first\nsecond\nthird";
    assert_eq!(vec!["first", "second", "third"], search("", contents));
    assert_eq!(vec!["first", "second", "third"], search_new("", contents));
    assert_eq!(
        vec!["first", "second", "third"],
        search_case_insensitive("", contents)
    );
}

#[test]
fn empty_contents_yield_nothing() {
    assert!(search("anything", "").is_empty());
    assert!(search_new("anything", "").is_empty());
    assert!(search_case_insensitive("anything", "").is_empty());
    assert!(search("", "").is_empty());
}

#[test]
fn trailing_newline_produces_no_empty_final_line() {
    let contents = "alpha\nbeta\n";
    assert_eq!(vec!["alpha", "beta"], search("", contents));
    assert_eq!(vec!["alpha", "beta"], split_lines(contents));
}

#[test]
fn interior_empty_lines_are_kept() {
    let contents = "alpha\n\nbeta";
    assert_eq!(vec!["alpha", "", "beta"], split_lines(contents));
    assert_eq!(vec!["alpha", "", "beta"], search("", contents));
}

#[test]
fn carriage_returns_are_ordinary_characters() {
    let contents = "alpha\r\nbeta";
    assert_eq!(vec!["alpha\r", "beta"], split_lines(contents));
    assert_eq!(vec!["alpha\r"], search("\r", contents));
}

#[test]
fn insensitive_results_keep_original_case() {
    let contents = "rust is great\nnothing here";
    assert_eq!(
        vec!["rust is great"],
        search_case_insensitive("RUST", contents)
    );
}

#[test]
fn insensitive_finds_at_least_the_sensitive_matches() {
    let contents = "\
Rust:
safe, fast, productive.
Pick three.
Trust me.";
    let sensitive = search("Rust", contents);
    let insensitive = search_case_insensitive("Rust", contents);
    assert_eq!(vec!["Rust:"], sensitive);
    assert_eq!(vec!["Rust:", "Trust me."], insensitive);
    assert!(sensitive.len() <= insensitive.len());
    for line in &insensitive {
        assert!(contents.lines().any(|l| l == *line));
    }
}

#[test]
fn search_is_idempotent() {
    let query = "st";
    let contents = "Rust:\nsafe, fast, productive.\nPick three.\nTrust me.";
    assert_eq!(search(query, contents), search(query, contents));
    assert_eq!(
        search_case_insensitive(query, contents),
        search_case_insensitive(query, contents)
    );
    assert_eq!(search_new(query, contents), search_new(query, contents));
}

#[test]
fn search_with_config_selects_the_engine() {
    let contents = "Rust:\nsafe, fast, productive.\nPick three.\nTrust me.";
    let sensitive = Config {
        query: String::from("rUsT"),
        file_path: String::from("poem.txt"),
        ignore_case: false,
    };
    let insensitive = Config {
        query: String::from("rUsT"),
        file_path: String::from("poem.txt"),
        ignore_case: true,
    };
    assert!(search_with_config(&sensitive, contents).is_empty());
    assert_eq!(
        vec!["Rust:", "Trust me."],
        search_with_config(&insensitive, contents)
    );
}

#[test]
fn query_spanning_lines_never_matches() {
    let contents = "ab\ncd";
    assert!(search("b\nc", contents).is_empty());
    assert!(search("abcd", contents).is_empty());
}
