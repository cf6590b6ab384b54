use minigrep::Config;
use minigrep::MissingArgument;

fn tokens(words: &[&str]) -> Vec<String> {
    words.iter().map(|w| String::from(*w)).collect()
}

#[test]
fn build_with_only_program_name_misses_query() {
    let args = tokens(&["prog"]);
    let r = Config::build(&args, None);
    assert_eq!(MissingArgument::Query, r.err().unwrap());
}

#[test]
fn build_with_no_tokens_misses_query() {
    let args = tokens(&[]);
    let r = Config::build(&args, None);
    assert_eq!(MissingArgument::Query, r.err().unwrap());
}

#[test]
fn build_with_one_further_token_misses_file_path() {
    let args = tokens(&["prog", "needle"]);
    let r = Config::build(&args, None);
    assert_eq!(MissingArgument::FilePath, r.err().unwrap());
}

#[test]
fn build_reads_query_and_file_path() {
    let args = tokens(&["prog", "needle", "poem.txt"]);
    let c = Config::build(&args, None).ok().unwrap();
    assert_eq!("needle", c.query);
    assert_eq!("poem.txt", c.file_path);
    assert!(!c.ignore_case);
}

#[test]
fn build_override_value_one_enables_ignore_case() {
    let args = tokens(&["prog", "needle", "poem.txt"]);
    let c = Config::build(&args, Some(String::from("1"))).ok().unwrap();
    assert!(c.ignore_case);
}

#[test]
fn build_override_other_value_disables_ignore_case() {
    let args = tokens(&["prog", "needle", "poem.txt", "true"]);
    let c = Config::build(&args, Some(String::from("0"))).ok().unwrap();
    assert!(!c.ignore_case);
    let c = Config::build(&args, Some(String::from("true"))).ok().unwrap();
    assert!(!c.ignore_case);
}

#[test]
fn build_falls_back_to_fourth_token() {
    let args = tokens(&["prog", "needle", "poem.txt", "true"]);
    let c = Config::build(&args, None).ok().unwrap();
    assert!(c.ignore_case);
    let args = tokens(&["prog", "needle", "poem.txt", "false"]);
    let c = Config::build(&args, None).ok().unwrap();
    assert!(!c.ignore_case);
}

#[test]
fn build_new_with_only_program_name_misses_query() {
    let r = Config::build_new(tokens(&["prog"]), None);
    assert_eq!(MissingArgument::Query, r.err().unwrap());
}

#[test]
fn build_new_with_one_further_token_misses_file_path() {
    let r = Config::build_new(tokens(&["prog", "needle"]), None);
    assert_eq!(MissingArgument::FilePath, r.err().unwrap());
}

#[test]
fn build_new_reads_query_and_file_path() {
    let c = Config::build_new(tokens(&["prog", "needle", "poem.txt"]), None)
        .ok()
        .unwrap();
    assert_eq!("needle", c.query);
    assert_eq!("poem.txt", c.file_path);
    assert!(!c.ignore_case);
}

#[test]
fn build_new_override_value_one_enables_ignore_case() {
    let c = Config::build_new(
        tokens(&["prog", "needle", "poem.txt"]),
        Some(String::from("1")),
    )
    .ok()
    .unwrap();
    assert!(c.ignore_case);
}

#[test]
fn build_new_reads_no_token_beyond_the_file_path() {
    let c = Config::build_new(tokens(&["prog", "needle", "poem.txt", "true"]), None)
        .ok()
        .unwrap();
    assert!(!c.ignore_case);
}

#[test]
fn missing_argument_messages() {
    assert_eq!("Didn't get a query string", MissingArgument::Query.message());
    assert_eq!("Didn't get a file path", MissingArgument::FilePath.message());
}
