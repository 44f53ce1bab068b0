use minigrep::model::{Content, Line};

#[test]
fn line_highlight_wraps_matching_query_in_red() {
    let line = Line::new(1, String::from("I am a line."));

    let highlighted_text = line.highlight("line", false);

    assert_eq!("I am a \x1b[31mline\x1b[0m.", highlighted_text)
}

#[test]
fn no_line_highlight_when_query_not_found() {
    let line = Line::new(1, String::from("I am a line."));

    let highlighted_text = line.highlight("monkey", false);

    assert_eq!(line.text, highlighted_text)
}

#[test]
fn line_highlight_ignores_case_when_enabled() {
    let line = Line::new(1, String::from("To be or not to be, that is the question"));

    let highlighted_text = line.highlight("to", true);

    assert_eq!(
        "\x1b[31mTo\x1b[0m be or not \x1b[31mto\x1b[0m be, that is the question",
        highlighted_text
    )
}

#[test]
fn line_highlight_does_not_ignore_case_when_disabled() {
    let line = Line::new(1, String::from("To be or not to be, that is the question"));

    let highlighted_text = line.highlight("to", false);

    assert_eq!(
        "To be or not \x1b[31mto\x1b[0m be, that is the question",
        highlighted_text
    )
}

#[test]
fn text_highlight_wraps_matching_query_in_red_in_lines() {
    let content = Content::from_lines(vec![
        Line::new(1, String::from("I am a line.")),
        Line::new(2, String::from("I am also line.")),
        Line::new(3, String::from("Me too!")),
        Line::new(3, String::from("Line")),
    ]);

    let highlighted_content = content.highlight("line", false);

    assert_eq!(
        Content::from_lines(vec![
            Line::new(1, String::from("I am a \x1b[31mline\x1b[0m.")),
            Line::new(2, String::from("I am also \x1b[31mline\x1b[0m.")),
            Line::new(3, String::from("Me too!")),
            Line::new(3, String::from("Line")),
        ]),
        highlighted_content
    )
}
