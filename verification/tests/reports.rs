use miette::{
    Diagnostic, Highlight, JokeReporter, MietteReporter, RenderError, Severity, Snippet,
    SourceContents, Span,
};

fn bare(severity: Severity) -> Diagnostic {
    Diagnostic {
        severity,
        code: "oops::my::bad".to_string(),
        message: "oops it broke".to_string(),
        causes: vec![],
        snippets: None,
        help: None,
    }
}

fn snippet(text: &str, message: Option<&str>) -> Snippet {
    Snippet {
        source_name: "bad_file.rs".to_string(),
        message: message.map(|m| m.to_string()),
        context: Span::new(0, text.len()).unwrap(),
        highlights: vec![Highlight { label: "this bit here".to_string(), span: Span::new(4, 5).unwrap() }],
        source: Some(SourceContents { data: text.as_bytes().to_vec(), line: 1, column: 1 }),
    }
}

#[test]
fn header_names_each_severity() {
    assert_eq!(MietteReporter.render_header(&bare(Severity::Error)), "Error[oops::my::bad]: oops it broke");
    assert_eq!(MietteReporter.render_header(&bare(Severity::Warning)), "Warning[oops::my::bad]: oops it broke");
    assert_eq!(MietteReporter.render_header(&bare(Severity::Advice)), "Advice[oops::my::bad]: oops it broke");
}

#[test]
fn no_cause_renders_nothing() {
    assert_eq!(MietteReporter.render_causes(&bare(Severity::Error)), "");
}

#[test]
fn single_cause_has_no_index() {
    let mut d = bare(Severity::Error);
    d.causes = vec!["file not found".to_string()];
    assert_eq!(MietteReporter.render_causes(&d), "\n\nCaused by:\n    file not found");
}

#[test]
fn several_causes_carry_their_index() {
    let mut d = bare(Severity::Error);
    d.causes = vec!["could not load".to_string(), "file not found".to_string(), "disk gone".to_string()];
    assert_eq!(
        MietteReporter.render_causes(&d),
        "\n\nCaused by:\n   0: could not load\n   1: file not found\n   2: disk gone"
    );
}

#[test]
fn cause_of_several_lines_is_indented_throughout() {
    let mut d = bare(Severity::Error);
    d.causes = vec!["first\nsecond\n\nfourth".to_string()];
    assert_eq!(MietteReporter.render_causes(&d), "\n\nCaused by:\n    first\n    second\n\n    fourth");
    d.causes.push("inner\nmore".to_string());
    assert_eq!(
        MietteReporter.render_causes(&d),
        "\n\nCaused by:\n   0: first\n      second\n\n      fourth\n   1: inner\n      more"
    );
}

#[test]
fn wide_index_pushes_the_colon_right() {
    let mut d = bare(Severity::Error);
    d.causes = (0..10001).map(|n| format!("cause {}", n)).collect();
    let out = MietteReporter.render_causes(&d);
    assert!(out.contains("\n  12: cause 12\n"));
    assert!(out.contains("\n 123: cause 123\n"));
    assert!(out.contains("\n9999: cause 9999\n"));
    assert!(out.ends_with("\n10000: cause 10000"));
}

#[test]
fn header_alone() {
    assert_eq!(
        MietteReporter.render_diagnostic(&bare(Severity::Error)).unwrap(),
        "Error[oops::my::bad]: oops it broke"
    );
}

#[test]
fn full_report_layout() {
    let mut d = bare(Severity::Error);
    d.causes = vec!["file not found".to_string()];
    d.snippets = Some(vec![snippet("let x = 1\nlet y = 2", Some("This is the part that broke"))]);
    d.help = Some(vec!["try doing it better next time?".to_string(), "or not".to_string()]);
    let out = MietteReporter.render_diagnostic(&d).unwrap();
    assert_eq!(
        out,
        "Error[oops::my::bad]: oops it broke\n\nCaused by:\n    file not found\n\n[bad_file.rs] This is the part that broke:\n\n    1  | let x = 1\n    \u{2AF6}  |     ^ this bit here\n    2  | let y = 2\n\n\u{FE66}try doing it better next time?\n\u{FE66}or not\n"
    );
}

#[test]
fn snippets_follow_a_blank_line() {
    let mut d = bare(Severity::Warning);
    d.snippets = Some(vec![snippet("abcdef", None), snippet("ghijkl", None)]);
    let out = MietteReporter.render_diagnostic(&d).unwrap();
    assert_eq!(
        out,
        "Warning[oops::my::bad]: oops it broke\n\n[bad_file.rs]\n\n    1  | abcdef\n    \u{2AF6}  |     ^ this bit here\n\n[bad_file.rs]\n\n    1  | ghijkl\n    \u{2AF6}  |     ^ this bit here\n"
    );
}

#[test]
fn empty_lists_still_open_their_blocks() {
    let mut d = bare(Severity::Advice);
    d.snippets = Some(vec![]);
    d.help = Some(vec![]);
    assert_eq!(MietteReporter.render_diagnostic(&d).unwrap(), "Advice[oops::my::bad]: oops it broke\n\n");
}

#[test]
fn help_follows_the_header_after_an_empty_line() {
    let mut d = bare(Severity::Error);
    d.help = Some(vec!["read the manual".to_string()]);
    assert_eq!(
        MietteReporter.render_diagnostic(&d).unwrap(),
        "Error[oops::my::bad]: oops it broke\n\n\u{FE66}read the manual\n"
    );
    d.code = "c".to_string();
    d.message = "m".to_string();
    d.help = Some(vec!["h".to_string()]);
    assert_eq!(MietteReporter.render_diagnostic(&d).unwrap(), "Error[c]: m\n\n\u{FE66}h\n");
}

#[test]
fn help_follows_the_causes_after_an_empty_line() {
    let mut d = bare(Severity::Error);
    d.causes = vec!["file not found".to_string()];
    d.help = Some(vec!["read the manual".to_string()]);
    assert_eq!(
        MietteReporter.render_diagnostic(&d).unwrap(),
        "Error[oops::my::bad]: oops it broke\n\nCaused by:\n    file not found\n\n\u{FE66}read the manual\n"
    );
}

#[test]
fn help_after_a_closed_line_gets_one_line_feed() {
    let mut d = bare(Severity::Error);
    d.message = "oops it broke\n".to_string();
    d.help = Some(vec!["read the manual".to_string()]);
    assert_eq!(
        MietteReporter.render_diagnostic(&d).unwrap(),
        "Error[oops::my::bad]: oops it broke\n\n\u{FE66}read the manual\n"
    );
}

#[test]
fn help_after_snippets_gets_one_empty_line() {
    let mut d = bare(Severity::Error);
    d.snippets = Some(vec![snippet("abcdef", None)]);
    d.help = Some(vec!["read the manual".to_string()]);
    assert_eq!(
        MietteReporter.render_diagnostic(&d).unwrap(),
        "Error[oops::my::bad]: oops it broke\n\n[bad_file.rs]\n\n    1  | abcdef\n    \u{2AF6}  |     ^ this bit here\n\n\u{FE66}read the manual\n"
    );
}

#[test]
fn first_failing_snippet_decides_the_error() {
    let mut d = bare(Severity::Error);
    let mut malformed = snippet("abcdef", None);
    malformed.source = Some(SourceContents { data: vec![0xc3, 0x28], line: 1, column: 1 });
    let mut missing = snippet("abcdef", None);
    missing.source = None;
    d.snippets = Some(vec![snippet("abcdef", None), malformed, missing]);
    assert_eq!(MietteReporter.render_diagnostic(&d), Err(RenderError::MalformedSource));
}

#[test]
fn multiline_highlight_fails_the_whole_report() {
    let mut d = bare(Severity::Error);
    let mut s = snippet("let x = 1\nlet y = 2", None);
    s.highlights = vec![Highlight { label: "wide".to_string(), span: Span::new(4, 14).unwrap() }];
    d.snippets = Some(vec![s]);
    d.help = Some(vec!["unused".to_string()]);
    assert_eq!(MietteReporter.render_diagnostic(&d), Err(RenderError::UnsupportedHighlight));
}

#[test]
fn report_rendered_twice_is_identical() {
    let mut d = bare(Severity::Error);
    d.causes = vec!["a".to_string(), "b".to_string()];
    d.snippets = Some(vec![snippet("let x = 1\nlet y = 2", Some("here"))]);
    d.help = Some(vec!["help".to_string()]);
    let first = MietteReporter.render_diagnostic(&d);
    let second = MietteReporter.render_diagnostic(&d);
    assert!(first.is_ok());
    assert_eq!(first, second);
}

#[test]
fn joke_with_stock_phrases() {
    assert_eq!(
        JokeReporter.render_diagnostic(&bare(Severity::Error)),
        "me, with error oops it broke: have you tried not failing?\nmiette, her eyes enormous: you oops::my::bad miette? you try and cause miette to panic? oh! oh! jail for mother! jail for mother for One Thousand Years!!!!\n"
    );
}

#[test]
fn joke_with_help_and_snippet_messages() {
    let mut d = bare(Severity::Warning);
    d.help = Some(vec!["try harder".to_string(), "or rest".to_string()]);
    d.snippets = Some(vec![snippet("abcdef", Some("read a file")), snippet("abcdef", Some("parse it"))]);
    assert_eq!(
        JokeReporter.render_diagnostic(&d),
        "me, with warning oops it broke: try harder or rest\nmiette, her eyes enormous: you oops::my::bad miette? you read a file, parse it? oh! oh! jail for mother! jail for mother for One Thousand Years!!!!\n"
    );
}

#[test]
fn joke_falls_back_when_a_snippet_has_no_message() {
    let mut d = bare(Severity::Advice);
    d.snippets = Some(vec![snippet("abcdef", Some("read a file")), snippet("abcdef", None)]);
    let out = JokeReporter.render_diagnostic(&d);
    assert!(out.starts_with("me, with advice oops it broke: "));
    assert!(out.contains("you try and cause miette to panic?"));
    d.snippets = Some(vec![]);
    d.help = Some(vec![]);
    let out = JokeReporter.render_diagnostic(&d);
    assert!(out.starts_with("me, with advice oops it broke: \n"));
    assert!(out.contains("miette? you ? oh! oh!"));
}
