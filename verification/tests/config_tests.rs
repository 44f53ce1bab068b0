use minigrep::config::Config;

#[test]
fn config_new_preserves_fields() {
    let query = String::from("Rust!");
    let file_path = String::from("src/main.rs");
    let ignore_case = false;
    let show_line_numbers = true;
    let only_match_words = true;
    let inverted_match = false;

    let config = Config::new(
        query.clone(),
        file_path.clone(),
        ignore_case,
        show_line_numbers,
        only_match_words,
        inverted_match,
    );

    assert_eq!(config.query, query);
    assert_eq!(config.file_path, file_path);
    assert_eq!(config.ignore_case, ignore_case);
    assert_eq!(config.show_line_numbers, show_line_numbers);
    assert_eq!(config.only_match_words, only_match_words);
    assert_eq!(config.inverted_match, inverted_match);
}

#[test]
fn config_build_extracts_fields_from_args() {
    let query = String::from("To be, or not to be");
    let file_path = String::from("poem.txt");
    let ignore_case = true;
    let show_line_numbers = true;
    let only_match_words = false;
    let inverted_match = true;

    let mut args: Vec<String> = vec!["src/main.rs".into()];

    if ignore_case {
        args.push(String::from("-i"));
    }
    if show_line_numbers {
        args.push(String::from("-n"));
    }
    if only_match_words {
        args.push(String::from("-w"));
    }
    if inverted_match {
        args.push(String::from("-v"));
    }

    args.push(query.clone()); // Needs to be second last
    args.push(file_path.clone()); // Needs to be last

    let config = Config::build(&args, false, false, false, false).unwrap();

    assert_eq!(config.query, query);
    assert_eq!(config.file_path, file_path);
    assert_eq!(config.ignore_case, ignore_case);
    assert_eq!(config.show_line_numbers, show_line_numbers);
    assert_eq!(config.only_match_words, only_match_words);
    assert_eq!(config.inverted_match, inverted_match);
}

#[test]
fn config_build_fails_if_missing_query() {
    let file_path = String::from("poem.txt");
    let ignore_case = true;
    let show_line_numbers = true;
    let only_match_words = false;
    let inverted_match = true;

    let mut args: Vec<String> = vec!["src/main.rs".into()];

    if ignore_case {
        args.push(String::from("-i"));
    }
    if show_line_numbers {
        args.push(String::from("-n"));
    }
    if only_match_words {
        args.push(String::from("-w"));
    }
    if inverted_match {
        args.push(String::from("-v"));
    }

    // Here we are not pushing the query arg

    args.push(file_path.clone()); // Needs to be last

    let config = Config::build(&args, false, false, false, false); // This is missing the query

    // Should fail due to the query missing
    assert!(config.is_err());
}

#[test]
fn config_build_fails_if_empty_file_path() {
    let query = String::from("You");
    let file_path = String::from("");
    let ignore_case = true;
    let show_line_numbers = true;
    let only_match_words = false;
    let inverted_match = true;

    let mut args: Vec<String> = vec!["src/main.rs".into()];

    if ignore_case {
        args.push(String::from("-i"));
    }
    if show_line_numbers {
        args.push(String::from("-n"));
    }
    if only_match_words {
        args.push(String::from("-w"));
    }
    if inverted_match {
        args.push(String::from("-v"));
    }

    args.push(query.clone()); // Needs to be second last
    args.push(file_path.clone()); // Needs to be last

    let config = Config::build(&args, false, false, false, false);

    // Should fail due file path being empty
    assert!(config.is_err());
}
