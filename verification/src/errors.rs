//! Spans over source text and the diagnostics that point at them.

use std::ops::Range;
use vstd::prelude::*;
use vstd::string::*;

verus! {

/// Half-open byte range `[start, end)` into one source text.
#[derive(Clone, Copy, Debug, PartialEq, Eq, Hash, Structural)]
pub struct Span {
    pub start: usize,
    pub end: usize,
}

impl Span {
    /// The range does not end before it starts.
    pub open spec fn wf(self) -> bool {
        self.start <= self.end
    }

    /// The range is well formed and lies inside a text of `len` bytes.
    pub open spec fn within(self, len: nat) -> bool {
        self.start <= self.end <= len
    }

    /// The span from `start` up to `end`.
    pub fn new(start: usize, end: usize) -> (span: Span)
        requires
            start <= end,
        ensures
            span == (Span { start, end }),
    {
        Span { start, end }
    }

    /// The index of the first byte.
    pub fn start(&self) -> (start: usize)
        ensures
            start == self.start,
    {
        self.start
    }

    /// The index after the last byte.
    pub fn end(&self) -> (end: usize)
        ensures
            end == self.end,
    {
        self.end
    }
}

/// The span that runs from where `span1` starts to where `span2` ends.
pub fn merge_span(span1: &Span, span2: &Span) -> (merged: Span)
    requires
        span1.start <= span2.end,
    ensures
        merged == (Span { start: span1.start, end: span2.end }),
{
    Span { start: span1.start, end: span2.end }
}

/// The span that covers the byte range `range`.
pub fn create_span(range: Range<usize>) -> (span: Span)
    requires
        range.start <= range.end,
    ensures
        span == (Span { start: range.start, end: range.end }),
{
    Span { start: range.start, end: range.end }
}

/// How serious a diagnostic is.
#[derive(Clone, Copy, Debug, PartialEq, Eq, Hash, Structural)]
pub enum Severity {
    /// A hard failure: no syntax tree may be used.
    Error,
    /// A recoverable issue: processing goes on.
    Warning,
    /// Advice for the user.
    Info,
    /// A remark attached to the source.
    Note,
}

/// A structured message about one place in the source text.
#[derive(Debug, PartialEq, Eq)]
pub struct Diagnostic {
    pub severity: Severity,
    pub code: String,
    pub message: String,
    pub span: Span,
    pub notes: Vec<String>,
}

/// What a [`Diagnostic`] says, with its texts as character sequences.
pub struct DiagnosticView {
    pub severity: Severity,
    pub code: Seq<char>,
    pub message: Seq<char>,
    pub span: Span,
    pub notes: Seq<Seq<char>>,
}

/// The texts that a list of strings holds, in order.
pub open spec fn text_views(texts: Seq<String>) -> Seq<Seq<char>> {
    texts.map_values(|text: String| text@)
}

/// What a list of diagnostics says, in order.
pub open spec fn diagnostic_views(diagnostics: Seq<Diagnostic>) -> Seq<DiagnosticView> {
    diagnostics.map_values(|diagnostic: Diagnostic| diagnostic@)
}

impl View for Diagnostic {
    type V = DiagnosticView;

    open spec fn view(&self) -> DiagnosticView {
        DiagnosticView {
            severity: self.severity,
            code: self.code@,
            message: self.message@,
            span: self.span,
            notes: text_views(self.notes@),
        }
    }
}

/// A copy of `texts`, string by string.
pub fn clone_texts(texts: &Vec<String>) -> (copy: Vec<String>)
    ensures
        text_views(copy@) == text_views(texts@),
{
    let mut copy: Vec<String> = Vec::new();
    let mut i: usize = 0;
    while i < texts.len()
        invariant
            i <= texts.len(),
            copy.len() == i,
            forall|k: int| 0 <= k < i ==> copy@[k]@ == texts@[k]@,
        decreases texts.len() - i,
    {
        copy.push(texts[i].clone());
        i = i + 1;
    }
    assert(text_views(copy@) =~= text_views(texts@));
    copy
}

impl Clone for Diagnostic {
    fn clone(&self) -> (copy: Diagnostic)
        ensures
            copy@ == self@,
    {
        Diagnostic {
            severity: self.severity,
            code: self.code.clone(),
            message: self.message.clone(),
            span: self.span,
            notes: clone_texts(&self.notes),
        }
    }
}

/// A copy of `diagnostics`, one by one.
pub fn clone_diagnostics(diagnostics: &Vec<Diagnostic>) -> (copy: Vec<Diagnostic>)
    ensures
        diagnostic_views(copy@) == diagnostic_views(diagnostics@),
{
    let mut copy: Vec<Diagnostic> = Vec::new();
    let mut i: usize = 0;
    while i < diagnostics.len()
        invariant
            i <= diagnostics.len(),
            copy.len() == i,
            forall|k: int| 0 <= k < i ==> copy@[k]@ == diagnostics@[k]@,
        decreases diagnostics.len() - i,
    {
        copy.push(diagnostics[i].clone());
        i = i + 1;
    }
    assert(diagnostic_views(copy@) =~= diagnostic_views(diagnostics@));
    copy
}

/// Builds diagnostics against one named source unit, which it holds
/// unchanged: the unit's name and its full text.
#[derive(Clone, Copy, Debug)]
pub struct Reporting<'a> {
    name: &'a str,
    source: &'a str,
}

impl<'a> Reporting<'a> {
    /// The name of the source unit.
    pub closed spec fn name_view(&self) -> Seq<char> {
        self.name@
    }

    /// The bytes of the source unit's text.
    pub closed spec fn source_bytes(&self) -> Seq<u8> {
        self.source.spec_bytes()
    }

    /// `span` is a well-formed range of the source unit's text.
    pub open spec fn covers(&self, span: Span) -> bool {
        span.within(self.source_bytes().len())
    }

    /// A reporter for the source unit called `file` whose text is `content`.
    pub fn new(file: &'a str, content: &'a str) -> (reporter: Self)
        ensures
            reporter.name_view() == file@,
            reporter.source_bytes() == content.spec_bytes(),
    {
        Reporting { name: file, source: content }
    }

    /// The name of the source unit.
    pub fn name(&self) -> (name: &'a str)
        ensures
            name@ == self.name_view(),
    {
        self.name
    }

    /// The full text of the source unit.
    pub fn source(&self) -> (source: &'a str)
        ensures
            source.spec_bytes() == self.source_bytes(),
    {
        self.source
    }

    /// A diagnostic of the given severity about `span`.
    pub fn make_diagnostic(
        &self,
        severity: Severity,
        message: String,
        span: Span,
        notes: Vec<String>,
        code: String,
    ) -> (diagnostic: Diagnostic)
        requires
            self.covers(span),
        ensures
            diagnostic@ == (DiagnosticView {
                severity,
                code: code@,
                message: message@,
                span,
                notes: text_views(notes@),
            }),
    {
        Diagnostic { severity, code, message, span, notes }
    }

    /// An error about `span`.
    pub fn emit_error(&self, message: String, span: Span, notes: Vec<String>, code: String) -> (diagnostic: Diagnostic)
        requires
            self.covers(span),
        ensures
            diagnostic@ == (DiagnosticView {
                severity: Severity::Error,
                code: code@,
                message: message@,
                span,
                notes: text_views(notes@),
            }),
    {
        self.make_diagnostic(Severity::Error, message, span, notes, code)
    }

    /// A warning about `span`.
    pub fn emit_warning(&self, message: String, span: Span, notes: Vec<String>, code: String) -> (diagnostic: Diagnostic)
        requires
            self.covers(span),
        ensures
            diagnostic@ == (DiagnosticView {
                severity: Severity::Warning,
                code: code@,
                message: message@,
                span,
                notes: text_views(notes@),
            }),
    {
        self.make_diagnostic(Severity::Warning, message, span, notes, code)
    }

    /// A piece of advice about `span`.
    pub fn emit_info(&self, message: String, span: Span, notes: Vec<String>, code: String) -> (diagnostic: Diagnostic)
        requires
            self.covers(span),
        ensures
            diagnostic@ == (DiagnosticView {
                severity: Severity::Info,
                code: code@,
                message: message@,
                span,
                notes: text_views(notes@),
            }),
    {
        self.make_diagnostic(Severity::Info, message, span, notes, code)
    }

    /// A remark about `span`.
    pub fn emit_note(&self, message: String, span: Span, notes: Vec<String>, code: String) -> (diagnostic: Diagnostic)
        requires
            self.covers(span),
        ensures
            diagnostic@ == (DiagnosticView {
                severity: Severity::Note,
                code: code@,
                message: message@,
                span,
                notes: text_views(notes@),
            }),
    {
        self.make_diagnostic(Severity::Note, message, span, notes, code)
    }
}

} // verus!
