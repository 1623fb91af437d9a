use zxx::errors::{
    clone_diagnostics, clone_texts, create_span, merge_span, Diagnostic, Reporting, Severity, Span,
};

#[test]
fn span_keeps_its_ends() {
    let span = Span::new(3, 8);
    assert_eq!(span.start(), 3);
    assert_eq!(span.end(), 8);
    assert_eq!(span, Span { start: 3, end: 8 });
    assert_eq!(Span::new(4, 4), Span { start: 4, end: 4 });
}

#[test]
fn merged_span_runs_from_first_start_to_second_end() {
    let first = Span::new(5, 6);
    let second = Span::new(9, 12);
    assert_eq!(merge_span(&first, &second), Span { start: 5, end: 12 });
    assert_eq!(merge_span(&first, &first), first);
    assert_eq!(merge_span(&Span::new(2, 10), &Span::new(3, 4)), Span { start: 2, end: 4 });
    assert_eq!(merge_span(&Span::new(7, 9), &Span::new(1, 7)), Span { start: 7, end: 7 });
}

#[test]
fn created_span_covers_the_range() {
    assert_eq!(create_span(0..4), Span { start: 0, end: 4 });
    assert_eq!(create_span(17..17), Span { start: 17, end: 17 });
}

#[test]
fn reporter_keeps_its_source_unit() {
    let reporter = Reporting::new("main.zxx", "func f() {}");
    assert_eq!(reporter.name(), "main.zxx");
    assert_eq!(reporter.source(), "func f() {}");
}

#[test]
fn each_severity_has_its_emitter() {
    let reporter = Reporting::new("main.zxx", "func f() {}");
    let span = Span::new(5, 6);
    let notes = vec!["first".to_string(), "second".to_string()];
    let expected = |severity: Severity| Diagnostic {
        severity,
        code: "C1".to_string(),
        message: "something about f".to_string(),
        span,
        notes: vec!["first".to_string(), "second".to_string()],
    };
    assert_eq!(
        reporter.emit_error("something about f".to_string(), span, notes.clone(), "C1".to_string()),
        expected(Severity::Error)
    );
    assert_eq!(
        reporter.emit_warning("something about f".to_string(), span, notes.clone(), "C1".to_string()),
        expected(Severity::Warning)
    );
    assert_eq!(
        reporter.emit_info("something about f".to_string(), span, notes.clone(), "C1".to_string()),
        expected(Severity::Info)
    );
    assert_eq!(
        reporter.emit_note("something about f".to_string(), span, notes, "C1".to_string()),
        expected(Severity::Note)
    );
}

#[test]
fn emitted_diagnostic_may_cover_the_whole_text_or_nothing() {
    let reporter = Reporting::new("main.zxx", "abc");
    let whole = reporter.emit_error("m".to_string(), Span::new(0, 3), vec![], "E".to_string());
    assert_eq!(whole.span, Span { start: 0, end: 3 });
    assert!(whole.notes.is_empty());
    let nothing = reporter.emit_note(String::new(), Span::new(3, 3), vec![], String::new());
    assert_eq!(nothing.span, Span { start: 3, end: 3 });
    assert_eq!(nothing.message, "");
    assert_eq!(nothing.code, "");
}

#[test]
fn copies_are_equal() {
    let texts = vec!["a".to_string(), String::new(), "b\u{e9}".to_string()];
    assert_eq!(clone_texts(&texts), texts);
    assert_eq!(clone_texts(&vec![]), Vec::<String>::new());
    let reporter = Reporting::new("main.zxx", "abc");
    let diagnostics = vec![
        reporter.emit_error("one".to_string(), Span::new(0, 1), texts.clone(), "E1".to_string()),
        reporter.emit_warning("two".to_string(), Span::new(1, 3), vec![], "W2".to_string()),
    ];
    assert_eq!(clone_diagnostics(&diagnostics), diagnostics);
    assert_eq!(diagnostics[0].clone(), diagnostics[0]);
    assert_ne!(diagnostics[0].clone(), diagnostics[1]);
}

#[test]
fn diagnostic_is_made_of_what_it_is_given() {
    let reporter = Reporting::new("main.zxx", "func f() {}");
    let made = reporter.make_diagnostic(
        Severity::Warning,
        "the message".to_string(),
        Span::new(0, 4),
        vec!["a note".to_string()],
        "W7".to_string(),
    );
    assert_eq!(
        made,
        Diagnostic {
            severity: Severity::Warning,
            code: "W7".to_string(),
            message: "the message".to_string(),
            span: Span { start: 0, end: 4 },
            notes: vec!["a note".to_string()],
        }
    );
}
