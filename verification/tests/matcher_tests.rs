use crab_io::contains_substring;
use crab_io::run_search;
use crab_io::search;
use crab_io::search_case_insensitive;
use crab_io::Config;

#[test]
fn one_result() {
    let query = "duct";
    let contents = "\n
            Rust:\n
            safe, fast, productive.\n
            Pick three.";

    assert_eq!(vec!["safe, fast, productive."], search(query, contents))
}

#[test]
fn case_sensitive() {
    let query = "duct";
    let contents = "\n
            Rust:\n
            safe, fast, productive.\n
            Pick three.\n\
            Duct tape.";

    assert_eq!(vec!["safe, fast, productive."], search(query, contents))
}

#[test]
fn case_insensitive() {
    let query = "rUsT";
    let contents = "\n
            Rust:\n
            safe, fast, productive.\n
            Pick three.\n\
            Trust me.";

    assert_eq!(vec!["Rust:", "Trust me."], search_case_insensitive(query, contents))
}

#[test]
fn empty_query_returns_every_line_trimmed() {
    let contents = "alpha\n  beta \ngamma";
    assert_eq!(vec!["alpha", "beta", "gamma"], search("", contents));
    assert_eq!(vec!["alpha", "beta", "gamma"], search_case_insensitive("", contents));
}

#[test]
fn empty_query_matches_blank_line() {
    let contents = "   \n";
    assert_eq!(vec![""], search("", contents));
}

#[test]
fn empty_content_yields_no_results() {
    assert_eq!(Vec::<&str>::new(), search("anything", ""));
    assert_eq!(Vec::<&str>::new(), search_case_insensitive("anything", ""));
    assert_eq!(Vec::<&str>::new(), search("", ""));
}

#[test]
fn results_are_trimmed() {
    let contents = "   padded match   \nno hit here";
    assert_eq!(vec!["padded match"], search("match", contents));
}

#[test]
fn crlf_line_endings_are_tolerated() {
    let contents = "one\r\ntwo\r\nthree";
    assert_eq!(vec!["two"], search("two", contents));
}

#[test]
fn identical_lines_both_appear() {
    let contents = "echo\nother\necho";
    assert_eq!(vec!["echo", "echo"], search("echo", contents));
}

#[test]
fn order_follows_the_file() {
    let contents = "b first\na second\nb third";
    assert_eq!(vec!["b first", "b third"], search("b ", contents));
}

#[test]
fn search_is_idempotent_on_identical_inputs() {
    let query = "st";
    let contents = "first\nsecond\nthird";
    assert_eq!(search(query, contents), search(query, contents));
    assert_eq!(
        search_case_insensitive(query, contents),
        search_case_insensitive(query, contents)
    );
}

#[test]
fn uppercase_query_finds_lowercase_line() {
    let contents = "trust me";
    assert_eq!(vec!["trust me"], search_case_insensitive("RUST", contents));
    assert_eq!(Vec::<&str>::new(), search("RUST", contents));
}

#[test]
fn trailing_newline_adds_no_empty_line() {
    let contents = "end\n";
    assert_eq!(vec!["end"], search("", contents));
}

#[test]
fn contains_substring_is_literal_containment() {
    assert!(contains_substring("safe, fast, productive.", "duct"));
    assert!(!contains_substring("Duct tape.", "duct"));
    assert!(contains_substring("anything", ""));
    assert!(!contains_substring("", "a"));
}

#[test]
fn run_search_obeys_the_config_mode() {
    let args = vec![
        String::from("prog"),
        String::from("rUsT"),
        String::from("poem.txt"),
    ];
    let sensitive = Config::new(&args, None).unwrap();
    let insensitive = Config::new(&args, Some(String::from("1"))).unwrap();
    let contents = "Rust:\nTrust me.";
    assert_eq!(Vec::<&str>::new(), run_search(&sensitive, contents));
    assert_eq!(vec!["Rust:", "Trust me."], run_search(&insensitive, contents));
}
