//! The parser: tokens in, syntax tree out.
//!
//! * [`grammar`]: what a sequence of tokens means.
//! * [`cursor`]: the position in the tokens, with one token of lookahead.
//! * [`productions`]: the functions that read the tokens, one for each
//!   production of the grammar.
//! * [`laws`], [`extents`]: what holds of everything that is parsed.

pub mod cursor;
pub mod extents;
pub mod grammar;
pub mod laws;
pub mod productions;
pub mod reading;

use crate::ast::AstNode;
use crate::errors::{clone_diagnostics, diagnostic_views, Diagnostic, DiagnosticView, Reporting};
use crate::lexer::laws::{is_token_of, lemma_scan_tokens};
use crate::lexer::rules::lex;
use crate::lexer::token::{token_views, Token};
use crate::lexer::{lex_errors, lex_result, Lexer};
use crate::parser::grammar::{parse_tokens, tokens_fit, ParseOutput};
use crate::parser::productions::{build_document, read_top_level};
use vstd::prelude::*;
use vstd::string::*;

verus! {

/// What parsing a text gives: everything that is emitted, in the order of
/// emission, and either the document or the errors that stand in its way.
/// A text with a lexical error is not parsed: its lexical errors stand in
/// the way, and nothing more is emitted.
pub open spec fn parse_source(file_name: Seq<char>, bytes: Seq<u8>) -> ParseOutput {
    match lex_result(bytes) {
        Ok(tokens) => parse_tokens(file_name, tokens),
        Err(errors) => ParseOutput { emitted: Seq::empty(), result: Err(errors) },
    }
}

/// The diagnostics of the lexical errors of a text, in source order.
pub open spec fn lexical_errors(bytes: Seq<u8>) -> Seq<DiagnosticView> {
    match lex_result(bytes) {
        Ok(_) => Seq::empty(),
        Err(errors) => errors,
    }
}

/// Parses the tokens of one source unit into a syntax tree.
pub struct Parser<'a> {
    file_name: &'a str,
    tokens: Vec<Token>,
    reporter: Reporting<'a>,
    lex_errors: Vec<Diagnostic>,
    diagnostics: Vec<Diagnostic>,
}

impl<'a> Parser<'a> {
    /// The parser holds what tokenizing the text has given: its tokens, or
    /// its lexical errors and no token.
    #[verifier::type_invariant]
    spec fn lexed(self) -> bool {
        &&& self.reporter.name_view() == self.file_name@
        &&& self.reporter.source_bytes().len() <= usize::MAX
        &&& match lex_result(self.reporter.source_bytes()) {
            Ok(tokens) => token_views(self.tokens@) == tokens && self.lex_errors@.len() == 0,
            Err(errors) => self.tokens@.len() == 0 && self.lex_errors@.len() > 0 && diagnostic_views(
                self.lex_errors@,
            ) == errors,
        }
    }

    /// The name of the source unit.
    pub closed spec fn name_view(&self) -> Seq<char> {
        self.file_name@
    }

    /// The bytes of the source unit's text.
    pub closed spec fn source_bytes(&self) -> Seq<u8> {
        self.reporter.source_bytes()
    }

    /// Everything that the parser has emitted so far, in the order of
    /// emission.
    pub closed spec fn emitted(&self) -> Seq<DiagnosticView> {
        diagnostic_views(self.diagnostics@)
    }

    /// A parser for the text `contents` of the source unit called
    /// `file_name`. The text is tokenized; its lexical errors, if any, are
    /// emitted.
    pub fn new(file_name: &'a str, contents: &'a str) -> (parser: Self)
        ensures
            parser.name_view() == file_name@,
            parser.source_bytes() == contents.spec_bytes(),
            parser.emitted() == lexical_errors(contents.spec_bytes()),
    {
        let lexer = Lexer::new(file_name, contents);
        let reporter = Reporting::new(file_name, contents);
        // The length of a text fits a `usize`.
        let _ = contents.as_bytes().len();
        match lexer.tokenize() {
            Ok(tokens) => {
                let diagnostics: Vec<Diagnostic> = Vec::new();
                assert(diagnostic_views(diagnostics@) =~= Seq::<DiagnosticView>::empty());
                Parser { file_name, tokens, reporter, lex_errors: Vec::new(), diagnostics }
            },
            Err(errors) => {
                let diagnostics = clone_diagnostics(&errors);
                let tokens: Vec<Token> = Vec::new();
                assert(diagnostic_views(errors@).len() == errors@.len());
                proof {
                    let output = lex(contents.spec_bytes());
                    assert(lex_errors(output.errors).len() == output.errors.len());
                }
                Parser { file_name, tokens, reporter, lex_errors: errors, diagnostics }
            },
        }
    }

    /// Everything that the parser has emitted so far, in the order of
    /// emission.
    pub fn diagnostics(&self) -> (diagnostics: &Vec<Diagnostic>)
        ensures
            diagnostic_views(diagnostics@) == self.emitted(),
    {
        &self.diagnostics
    }

    /// The tokens of the text; none if the text has a lexical error.
    pub fn tokens(&self) -> (tokens: &Vec<Token>)
        ensures
            match lex_result(self.source_bytes()) {
                Ok(all) => token_views(tokens@) == all,
                Err(_) => tokens@.len() == 0,
            },
    {
        proof {
            use_type_invariant(self);
        }
        &self.tokens
    }

    /// Parses the text into a document. Each token of the top level that is
    /// not `func` is warned about and passed over; the first error stops the
    /// parser, and then there is no document. Whatever is emitted on the way
    /// is added to the diagnostics that the parser holds.
    pub fn parse(&mut self) -> (result: Result<AstNode, Vec<Diagnostic>>)
        ensures
            final(self).name_view() == old(self).name_view(),
            final(self).source_bytes() == old(self).source_bytes(),
            final(self).emitted() == old(self).emitted() + parse_source(
                old(self).name_view(),
                old(self).source_bytes(),
            ).emitted,
            match parse_source(old(self).name_view(), old(self).source_bytes()).result {
                Ok(document) => result matches Ok(node) && node@ == document,
                Err(errors) => result matches Err(found) && diagnostic_views(found@) == errors,
            },
    {
        proof {
            use_type_invariant(&*self);
        }
        let ghost bytes = self.reporter.source_bytes();
        let ghost before = self.emitted();
        if self.lex_errors.len() > 0 {
            assert(before + Seq::<DiagnosticView>::empty() =~= before);
            return Err(clone_diagnostics(&self.lex_errors));
        }
        let ghost tokens = token_views(self.tokens@);
        proof {
            lemma_scan_tokens(bytes, 0);
            assert forall|i: int| 0 <= i < tokens.len() implies (#[trigger] tokens[i]).span.start
                < tokens[i].span.end <= bytes.len() by {
                assert(is_token_of(bytes, lex(bytes).tokens[i]));
            }
            assert(tokens_fit(tokens, bytes.len()));
        }
        let (declarations, mut emitted, failed) = read_top_level(&self.reporter, &self.tokens);
        let ghost said = diagnostic_views(emitted@);
        let result = if failed {
            let mut errors: Vec<Diagnostic> = Vec::new();
            errors.push(emitted[emitted.len() - 1].clone());
            assert(diagnostic_views(errors@) =~= seq![said.last()]);
            Err(errors)
        } else {
            Ok(build_document(self.file_name, &self.tokens, declarations))
        };
        let mut all = clone_diagnostics(&self.diagnostics);
        proof {
            assert(diagnostic_views(all@ + emitted@) =~= before + said) by {
                assert(diagnostic_views(all@).len() == all@.len());
                assert(before.len() == all@.len());
                assert forall|i: int| 0 <= i < all@.len() implies diagnostic_views(all@ + emitted@)[i]
                    == before[i] by {
                    assert(diagnostic_views(all@)[i] == all@[i]@);
                }
            }
        }
        all.append(&mut emitted);
        self.diagnostics = all;
        result
    }
}

} // verus!
