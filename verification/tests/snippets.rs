use miette::{Highlight, MietteReporter, RenderError, Snippet, SourceContents, Span};

fn contents(text: &str, line: usize) -> Option<SourceContents> {
    Some(SourceContents { data: text.as_bytes().to_vec(), line, column: 1 })
}

fn highlight(label: &str, start: usize, end: usize) -> Highlight {
    Highlight { label: label.to_string(), span: Span::new(start, end).unwrap() }
}

fn snippet(text: &str, highlights: Vec<Highlight>) -> Snippet {
    Snippet {
        source_name: "demo.rs".to_string(),
        message: None,
        context: Span::new(0, text.len()).unwrap(),
        highlights,
        source: contents(text, 1),
    }
}

#[test]
fn caret_under_single_character() {
    let s = snippet("let x = 1\nlet y = 2\n", vec![highlight("here", 4, 5)]);
    let out = MietteReporter.render_snippet(&s).unwrap();
    assert_eq!(
        out,
        "\n[demo.rs]\n\n    1  | let x = 1\n    \u{2AF6}  |     ^ here\n    2  | let y = 2\n"
    );
}

#[test]
fn first_block_is_row_then_caret_row() {
    let s = snippet("let x = 1\nlet y = 2\n", vec![highlight("here", 4, 5)]);
    let out = MietteReporter.render_snippet(&s).unwrap();
    let lines: Vec<&str> = out.lines().collect();
    assert_eq!(lines[3].trim_start(), "1  | let x = 1");
    let caret = lines[4].trim_start();
    assert_eq!(caret, "\u{2AF6}  |     ^ here");
    let after_bar = &caret[caret.find("| ").unwrap() + 2..];
    assert_eq!(after_bar, "    ^ here");
}

#[test]
fn highlight_across_lines_is_unsupported() {
    let s = snippet("let x = 1\nlet y = 2\n", vec![highlight("both", 4, 14)]);
    assert_eq!(MietteReporter.render_snippet(&s), Err(RenderError::UnsupportedHighlight));
}

#[test]
fn highlight_reaching_the_line_break_is_unsupported() {
    let s = snippet("let x = 1\nlet y = 2\n", vec![highlight("tail", 4, 10)]);
    assert_eq!(MietteReporter.render_snippet(&s), Err(RenderError::UnsupportedHighlight));
}

#[test]
fn invalid_utf8_is_malformed_source() {
    let mut s = snippet("abc", vec![]);
    s.source = Some(SourceContents { data: vec![0x61, 0xff, 0x62], line: 1, column: 1 });
    assert_eq!(MietteReporter.render_snippet(&s), Err(RenderError::MalformedSource));
}

#[test]
fn missing_contents_is_span_out_of_bounds() {
    let mut s = snippet("abc", vec![]);
    s.source = None;
    assert_eq!(MietteReporter.render_snippet(&s), Err(RenderError::SpanOutOfBounds));
}

#[test]
fn heading_with_message() {
    let mut s = snippet("a", vec![]);
    s.message = Some("while parsing".to_string());
    let out = MietteReporter.render_snippet(&s).unwrap();
    assert_eq!(out, "\n[demo.rs] while parsing:\n\n    1  | a\n");
}

#[test]
fn empty_text_has_no_rows() {
    let s = snippet("", vec![]);
    assert_eq!(MietteReporter.render_snippet(&s).unwrap(), "\n[demo.rs]\n\n");
}

#[test]
fn last_line_without_break_is_shown_once() {
    let s = snippet("one\ntwo", vec![]);
    let out = MietteReporter.render_snippet(&s).unwrap();
    assert_eq!(out, "\n[demo.rs]\n\n    1  | one\n    2  | two\n");
    assert_eq!(out.matches("two").count(), 1);
}

#[test]
fn line_numbers_follow_each_separator_style() {
    let lf = MietteReporter.render_snippet(&snippet("a\nb\nc", vec![])).unwrap();
    assert_eq!(lf, "\n[demo.rs]\n\n    1  | a\n    2  | b\n    3  | c\n");
    let crlf = MietteReporter.render_snippet(&snippet("a\r\nb\r\nc", vec![])).unwrap();
    assert_eq!(crlf, "\n[demo.rs]\n\n    1  | a\n    2  | b\n    3  | c\n");
}

#[test]
fn lone_carriage_return_stays_in_its_line() {
    let out = MietteReporter.render_snippet(&snippet("a\rb\nc", vec![])).unwrap();
    assert_eq!(out, "\n[demo.rs]\n\n    1  | a\rb\n    2  | c\n");
}

#[test]
fn line_break_at_the_end_shifts_no_number_and_adds_no_row() {
    let out = MietteReporter.render_snippet(&snippet("a\nb\n", vec![])).unwrap();
    assert_eq!(out, "\n[demo.rs]\n\n    1  | a\n    2  | b\n");
    let out = MietteReporter.render_snippet(&snippet("a\r\n", vec![])).unwrap();
    assert_eq!(out, "\n[demo.rs]\n\n    1  | a\n");
    let out = MietteReporter.render_snippet(&snippet("let x = 1\n", vec![])).unwrap();
    assert_eq!(out, "\n[demo.rs]\n\n    1  | let x = 1\n");
}

#[test]
fn closed_and_open_last_line_are_numbered_alike() {
    let closed = MietteReporter.render_snippet(&snippet("a\nb\nc\n", vec![])).unwrap();
    let open = MietteReporter.render_snippet(&snippet("a\nb\nc", vec![])).unwrap();
    assert_eq!(closed, open);
    let closed = MietteReporter.render_snippet(&snippet("a\r\nb\r\n", vec![])).unwrap();
    assert_eq!(closed, "\n[demo.rs]\n\n    1  | a\n    2  | b\n");
}

#[test]
fn text_of_line_breaks_only_has_a_row_for_each() {
    let out = MietteReporter.render_snippet(&snippet("\n\r\n\n", vec![])).unwrap();
    assert_eq!(out, "\n[demo.rs]\n\n    1  | \n    2  | \n    3  | \n");
}

#[test]
fn empty_lines_are_rows_too() {
    let out = MietteReporter.render_snippet(&snippet("a\n\nb", vec![])).unwrap();
    assert_eq!(out, "\n[demo.rs]\n\n    1  | a\n    2  | \n    3  | b\n");
}

#[test]
fn first_row_carries_the_line_the_source_gave() {
    let mut s = snippet("x\ny", vec![]);
    s.source = contents("x\ny", 9);
    let out = MietteReporter.render_snippet(&s).unwrap();
    assert_eq!(out, "\n[demo.rs]\n\n    9  | x\n    10 | y\n");
}

#[test]
fn offsets_count_from_the_context_start() {
    let text = "let y = 2";
    let s = Snippet {
        source_name: "demo.rs".to_string(),
        message: None,
        context: Span::new(10, 19).unwrap(),
        highlights: vec![highlight("this", 14, 15)],
        source: contents(text, 2),
    };
    let out = MietteReporter.render_snippet(&s).unwrap();
    assert_eq!(out, "\n[demo.rs]\n\n    2  | let y = 2\n    \u{2AF6}  |     ^ this\n");
}

#[test]
fn carets_follow_bytes_not_columns() {
    // The accented letter takes two bytes, so the carets stand one column
    // further right than the letter they mark.
    let text = "\u{e9}a = 1";
    let s = snippet(text, vec![highlight("name", 2, 3)]);
    let out = MietteReporter.render_snippet(&s).unwrap();
    assert_eq!(out, "\n[demo.rs]\n\n    1  | \u{e9}a = 1\n    \u{2AF6}  |   ^ name\n");
}

#[test]
fn several_highlights_on_one_row_keep_their_order() {
    let s = snippet("let x = 1\n", vec![highlight("value", 8, 9), highlight("name", 4, 5)]);
    let out = MietteReporter.render_snippet(&s).unwrap();
    assert_eq!(
        out,
        "\n[demo.rs]\n\n    1  | let x = 1\n    \u{2AF6}  |         ^ value\n    \u{2AF6}  |     ^ name\n"
    );
}

#[test]
fn wide_highlight_has_one_caret_per_byte() {
    let s = snippet("let x = 1", vec![highlight("all", 0, 5)]);
    let out = MietteReporter.render_snippet(&s).unwrap();
    assert_eq!(out, "\n[demo.rs]\n\n    1  | let x = 1\n    \u{2AF6}  | ^^^^^ all\n");
}

#[test]
fn highlight_on_another_line_is_skipped_on_this_one() {
    let s = snippet("ab\ncd", vec![highlight("second", 3, 4)]);
    let out = MietteReporter.render_snippet(&s).unwrap();
    assert_eq!(out, "\n[demo.rs]\n\n    1  | ab\n    2  | cd\n    \u{2AF6}  | ^ second\n");
}

#[test]
fn span_rejects_bounds_out_of_order() {
    assert!(Span::new(5, 4).is_none());
    let span = Span::new(4, 9).unwrap();
    assert_eq!((span.start(), span.end(), span.len()), (4, 9, 5));
    assert_eq!(Span::new(3, 3).unwrap().len(), 0);
}

#[test]
fn rendering_twice_gives_the_same_text() {
    let s = snippet("let x = 1\nlet y = 2", vec![highlight("here", 4, 5)]);
    assert_eq!(MietteReporter.render_snippet(&s), MietteReporter.render_snippet(&s));
}
