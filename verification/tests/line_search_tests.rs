use minigrep::model::Line;

#[test]
fn line_search_returns_line_if_containing_query() {
    let line = Line::new(1, String::from("This minigrep tool is amazing!"));

    let maybe_searched_line = line.clone().search("minigrep", false, false, false);

    assert_eq!(Some(line), maybe_searched_line)
}

#[test]
fn line_search_does_not_return_line_if_not_containing_query() {
    let line = Line::new(1, String::from("This minigrep tool is amazing!"));

    let maybe_searched_line = line.search("hello", false, false, false);

    assert_eq!(None, maybe_searched_line)
}

#[test]
fn line_search_ignore_case_when_enabled() {
    let line = Line::new(1, String::from("Me too"));

    let maybe_searched_line = line.clone().search("TO", true, false, false);

    assert_eq!(Some(line), maybe_searched_line)
}

#[test]
fn line_search_does_not_ignore_case_when_disabled() {
    let line = Line::new(1, String::from("Me too"));

    let maybe_searched_line = line.search("TO", false, false, false);

    assert_eq!(None, maybe_searched_line)
}

#[test]
fn line_search_only_matches_words_when_enabled() {
    let line = Line::new(1, String::from("Me too"));

    let maybe_searched_line = line.search("to", false, true, false);

    assert_eq!(None, maybe_searched_line)
}

#[test]
fn line_search_does_not_only_match_words_when_disabled() {
    let line = Line::new(1, String::from("Me too"));

    let maybe_searched_line = line.clone().search("to", false, false, false);

    assert_eq!(Some(line), maybe_searched_line)
}

#[test]
fn line_search_inverts_match_when_enabled() {
    let line = Line::new(1, String::from("Me too"));

    let maybe_searched_line = line.search("to", false, false, true);

    assert_eq!(None, maybe_searched_line)
}

#[test]
fn line_search_does_not_invert_match_when_disabled() {
    let line = Line::new(1, String::from("Me too"));

    let maybe_searched_line = line.clone().search("to", false, false, false);

    assert_eq!(Some(line), maybe_searched_line)
}

#[test]
fn line_search_ignore_case_only_match_words_inverted_match_work_togheter() {
    let line = Line::new(1, String::from("Then there's a pair of us - don't tell!"));

    let maybe_searched_line = line.clone().search("AI", true, true, true);

    assert_eq!(Some(line), maybe_searched_line)
}
