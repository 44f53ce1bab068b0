use minigrep::config::Config;
use minigrep::engine::search;
use minigrep::model::{Content, Line};

fn strip_markers(s: &str) -> String {
    s.replace("\x1b[31m", "").replace("\x1b[0m", "")
}

#[test]
fn substring_case_sensitive_skips_differently_cased_lines() {
    let contents = "\
Rust:
safe, fast, productive.
Pick three.
Trust me.
";

    // "Rust:" does not match with exact case; "Trust me." still does, since
    // the lowercase characters of "Trust" contain "rust" as a substring.
    assert_eq!(
        vec![Line::new(4, "Trust me.".to_string())],
        search("rust", contents, false, false, false)
    );
}

#[test]
fn scenario_highlight_brackets_single_occurrence() {
    let line = Line::new(1, String::from("I am a line."));

    let marked = line.highlight("line", false);

    assert_eq!("I am a \x1b[31mline\x1b[0m.", marked);
    assert_eq!(line.text, strip_markers(&marked));
}

#[test]
fn whole_word_rejects_strict_substring_of_token() {
    let line = Line::new(1, String::from("I trust dust"));

    assert_eq!(None, line.search("rust", false, true, false));
}

#[test]
fn whole_word_accepts_token_equal_match() {
    let line = Line::new(1, String::from("I love rust."));

    assert_eq!(
        Some(Line::new(1, String::from("I love rust."))),
        line.search("rust", false, true, false)
    );
}

#[test]
fn whole_word_strips_punctuation_around_token() {
    let line = Line::new(1, String::from("try (rust). today"));

    assert_eq!(
        Some(Line::new(1, String::from("try (rust). today"))),
        line.search("rust", false, true, false)
    );
}

#[test]
fn inverted_results_are_exact_complement() {
    let contents = "\
Rust:
safe, fast, productive.
Pick three.
I trust dust
";
    let plain = search("st", contents, false, false, false);
    let inverted = search("st", contents, false, false, true);

    assert_eq!(plain.len() + inverted.len(), 4);
    for index in 1..=4usize {
        let in_plain = plain.iter().any(|l| l.index == index);
        let in_inverted = inverted.iter().any(|l| l.index == index);
        assert!(in_plain != in_inverted);
    }
    assert_eq!(
        vec![
            Line::new(1, "Rust:".to_string()),
            Line::new(2, "safe, fast, productive.".to_string()),
            Line::new(4, "I trust dust".to_string()),
        ],
        plain
    );
    assert_eq!(vec![Line::new(3, "Pick three.".to_string())], inverted);
}

#[test]
fn nonmatching_line_is_excluded_from_results() {
    let results = search("three", "Rust:\nPick three.", false, false, false);

    assert!(results.iter().all(|l| l.index != 1));
    assert_eq!(vec![Line::new(2, "Pick three.".to_string())], results);
}

#[test]
fn strip_markers_round_trip_with_multiple_matches() {
    let line = Line::new(1, String::from("aaaa"));

    let marked = line.highlight("aa", false);

    assert_eq!("\x1b[31maa\x1b[0m\x1b[31maa\x1b[0m", marked);
    assert_eq!("aaaa", strip_markers(&marked));
}

#[test]
fn strip_markers_round_trip_ignore_case() {
    let line = Line::new(7, String::from("To be or not to be"));

    let marked = line.highlight("TO", true);

    assert_eq!(line.text, strip_markers(&marked));
}

#[test]
fn highlight_wraps_match_at_line_end() {
    let line = Line::new(1, String::from("say line"));

    assert_eq!("say \x1b[31mline\x1b[0m", line.highlight("line", false));
}

#[test]
fn highlight_restarts_after_partial_match() {
    let line = Line::new(1, String::from("aab"));

    assert_eq!("a\x1b[31mab\x1b[0m", line.highlight("ab", false));
}

#[test]
fn highlight_keeps_original_casing_when_ignoring_case() {
    let line = Line::new(1, String::from("a LiNe here"));

    assert_eq!(
        "a \x1b[31mLiNe\x1b[0m here",
        line.highlight("line", true)
    );
}

#[test]
fn empty_query_substring_mode_matches_every_line() {
    let contents = "one\ntwo";

    assert_eq!(
        vec![
            Line::new(1, "one".to_string()),
            Line::new(2, "two".to_string()),
        ],
        search("", contents, false, false, false)
    );
}

#[test]
fn empty_query_whole_word_mode_matches_no_line() {
    let contents = "one\ntwo";

    assert_eq!(
        vec![] as Vec<Line>,
        search("", contents, false, true, false)
    );
}

#[test]
fn empty_query_highlight_returns_line_unchanged() {
    let line = Line::new(1, String::from("untouched"));

    assert_eq!("untouched", line.highlight("", false));
}

#[test]
fn from_str_of_empty_text_has_no_lines() {
    let content = Content::from_str("");

    assert_eq!(0, content.lines.len());
}

#[test]
fn from_str_drops_only_the_trailing_newline() {
    let content = Content::from_str("a\n\nb\n");

    assert_eq!(3, content.lines.len());
    assert_eq!(Line::new(1, "a".to_string()), content.lines[0]);
    assert_eq!(Line::new(2, "".to_string()), content.lines[1]);
    assert_eq!(Line::new(3, "b".to_string()), content.lines[2]);
}

#[test]
fn from_str_of_lone_newline_is_one_empty_line() {
    let content = Content::from_str("\n");

    assert_eq!(1, content.lines.len());
    assert_eq!(Line::new(1, "".to_string()), content.lines[0]);
}

#[test]
fn content_search_keeps_original_indices() {
    let content = Content::from_str("Rust:\nsafe, fast, productive.\nPick three.");

    let found = content.search("Pick", false, false, false);

    assert_eq!(1, found.lines.len());
    assert_eq!(Line::new(3, "Pick three.".to_string()), found.lines[0]);
}

#[test]
fn content_new_is_empty() {
    let content = Content::new();

    assert_eq!(0, content.lines.len());
}

#[test]
fn config_build_fails_if_not_enough_arguments() {
    let args: Vec<String> = vec!["src/main.rs".into(), "query".into()];

    assert_eq!(
        Err("Not enough arguments"),
        Config::build(&args, false, false, false, false).map(|c| c.query)
    );
}

#[test]
fn config_build_fails_if_empty_query() {
    let args: Vec<String> = vec!["src/main.rs".into(), "".into(), "poem.txt".into()];

    assert_eq!(
        Err("Query can not be empty"),
        Config::build(&args, false, false, false, false).map(|c| c.query)
    );
}

#[test]
fn config_build_fails_if_query_looks_like_flag() {
    let args: Vec<String> = vec!["src/main.rs".into(), "-i".into(), "poem.txt".into()];

    assert_eq!(
        Err("Query argument missing"),
        Config::build(&args, false, false, false, false).map(|c| c.query)
    );
}

#[test]
fn config_build_fails_if_file_path_looks_like_flag() {
    let args: Vec<String> = vec!["src/main.rs".into(), "You".into(), "-v".into()];

    assert_eq!(
        Err("File path argument missing"),
        Config::build(&args, false, false, false, false).map(|c| c.query)
    );
}

#[test]
fn config_build_takes_options_from_environment_say() {
    let args: Vec<String> = vec!["src/main.rs".into(), "You".into(), "poem.txt".into()];

    let config = Config::build(&args, true, false, true, false).unwrap();

    assert!(config.ignore_case);
    assert!(!config.show_line_numbers);
    assert!(config.only_match_words);
    assert!(!config.inverted_match);
}
