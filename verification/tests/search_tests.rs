use grepclone::{search, Config};

fn config(query: &str, ignore_case: bool, whole_word: bool) -> Config {
    Config {
        query: query.to_string(),
        filename: "".to_string(),
        ignore_case,
        whole_word,
    }
}

#[test]
fn case_sensitive_partial() {
    let config = Config {
        query: "he".to_string(),
        filename: "".to_string(),
        ignore_case: false,
        whole_word: false,
    };

    let contents = "He clasps the crag
Close to the sun
he stands";

    assert_eq!(
        vec!["He clasps the crag", "Close to the sun", "he stands"],
        search(&config, contents)
    );
}

#[test]
fn case_sensitive_whole_word() {
    let config = Config {
        query: "he".to_string(),
        filename: "".to_string(),
        ignore_case: false,
        whole_word: true,
    };

    let contents = "He clasps the crag
Close to the sun
he stands";

    assert_eq!(vec!["he stands"], search(&config, contents));
}

#[test]
fn case_insensitive_partial() {
    let config = Config {
        query: "he".to_string(),
        filename: "".to_string(),
        ignore_case: true,
        whole_word: false,
    };

    let contents = "He clasps the crag
Close to the sun
he stands";

    assert_eq!(
        vec!["He clasps the crag", "Close to the sun", "he stands"],
        search(&config, contents)
    );
}

#[test]
fn case_insensitive_whole_word() {
    let config = Config {
        query: "he".to_string(),
        filename: "".to_string(),
        ignore_case: true,
        whole_word: true,
    };

    let contents = "He clasps the crag
Close to the sun
he stands";

    assert_eq!(
        vec!["He clasps the crag", "he stands"],
        search(&config, contents)
    );
}

#[test]
fn whole_word_with_punctuation() {
    let config = Config {
        query: "sun".to_string(),
        filename: "".to_string(),
        ignore_case: false,
        whole_word: true,
    };

    let contents = "Close to the sun.
he stands, admiring the sunset,
it is beautiful.";

    assert_eq!(vec!["Close to the sun."], search(&config, contents));
}

#[test]
fn substring_case_sensitive_scenario() {
    let contents = "/\nSome multiline\ntext that\nshould exist.";
    assert_eq!(
        vec!["should exist."],
        search(&config("exist", false, false), contents)
    );
}

#[test]
fn substring_case_insensitive_scenario() {
    let contents = "/\nSOME strange\nCASES iN thiS\nmuLTILinE tExt\nthat sHouLD\nexist.";
    assert_eq!(
        vec!["CASES iN thiS", "muLTILinE tExt"],
        search(&config("IN", true, false), contents)
    );
}

#[test]
fn empty_query_substring_matches_every_line() {
    let contents = "first\n\nthird";
    assert_eq!(
        vec!["first", "", "third"],
        search(&config("", false, false), contents)
    );
    assert_eq!(
        vec!["first", "", "third"],
        search(&config("", true, false), contents)
    );
}

#[test]
fn empty_query_whole_word_matches_no_line() {
    let contents = "first\n\nthird";
    assert_eq!(
        Vec::<&str>::new(),
        search(&config("", false, true), contents)
    );
    assert_eq!(Vec::<&str>::new(), search(&config("", true, true), contents));
}

#[test]
fn empty_document_yields_no_lines() {
    assert_eq!(Vec::<&str>::new(), search(&config("", false, false), ""));
    assert_eq!(
        Vec::<&str>::new(),
        search(&config("anything", true, true), "")
    );
}

#[test]
fn no_match_yields_empty_result() {
    let contents = "alpha\nbeta";
    assert_eq!(
        Vec::<&str>::new(),
        search(&config("gamma", false, false), contents)
    );
}

#[test]
fn trailing_newline_produces_no_extra_line() {
    let contents = "he\n";
    assert_eq!(vec!["he"], search(&config("", false, false), contents));
}

#[test]
fn crlf_terminators_are_stripped() {
    let contents = "sun\r\nmoon\r\n";
    assert_eq!(vec!["sun"], search(&config("sun", false, false), contents));
    assert_eq!(vec!["moon"], search(&config("moon", false, true), contents));
}

#[test]
fn lone_carriage_return_is_content() {
    let contents = "a\rmoon\nother";
    assert_eq!(
        vec!["a\rmoon"],
        search(&config("moon", false, false), contents)
    );
}

#[test]
fn whole_word_at_line_edges() {
    let contents = "he\nhe is here\nshe";
    assert_eq!(
        vec!["he", "he is here"],
        search(&config("he", false, true), contents)
    );
}

#[test]
fn underscore_is_word_constituent() {
    let contents = "sun_set\nsun-set\nsun set";
    assert_eq!(
        vec!["sun-set", "sun set"],
        search(&config("sun", false, true), contents)
    );
}

#[test]
fn digits_are_word_constituent() {
    let contents = "sun5\nsun 5";
    assert_eq!(vec!["sun 5"], search(&config("sun", false, true), contents));
}

#[test]
fn case_folding_is_applied_to_both_sides() {
    let contents = "HEATHER\nheather\nHeAtHeR";
    assert_eq!(
        vec!["HEATHER", "heather", "HeAtHeR"],
        search(&config("hEaThEr", true, false), contents)
    );
}

#[test]
fn case_folding_is_ascii_only() {
    // The documented limitation: only ASCII letters fold, so accented
    // letters differing in case alone do not match each other.
    let contents = "\u{c4}pfel\n\u{e4}pfel";
    assert_eq!(
        vec!["\u{e4}pfel"],
        search(&config("\u{e4}pfel", true, false), contents)
    );
}

#[test]
fn repeated_search_returns_identical_results() {
    let contents = "He clasps the crag\nClose to the sun\nhe stands";
    let cfg = config("he", true, true);
    let first = search(&cfg, contents);
    let second = search(&cfg, contents);
    assert_eq!(first, second);
}

#[test]
fn duplicate_matching_lines_are_all_returned_in_order() {
    let contents = "echo\nother\necho\necho";
    assert_eq!(
        vec!["echo", "echo", "echo"],
        search(&config("echo", false, true), contents)
    );
}

#[test]
fn line_matching_twice_is_returned_once() {
    let contents = "sun and sun\nmoon";
    assert_eq!(
        vec!["sun and sun"],
        search(&config("sun", false, false), contents)
    );
}
