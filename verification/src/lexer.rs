//! The lexer: source text in, tokens with their spans out.
//!
//! * [`rules`]: the lexical grammar, which says what the tokens of a text are.
//! * [`scanner`]: finding the token at a position.
//! * [`laws`]: what holds of the tokens of every text.
//!
//! Bytes that match no rule are a lexical error, `E001`. An error does not
//! stop the lexer: it reports all of them, and then hands out no token.

pub mod laws;
pub mod proofs;
pub mod rules;
pub mod scanner;
pub mod token;

use crate::errors::{diagnostic_views, text_views, Diagnostic, DiagnosticView, Reporting, Severity, Span};
use crate::lexer::rules::{lemma_step_bounds, lex, scan};
use crate::lexer::scanner::{next_token, space_byte};
use crate::lexer::token::{token_views, Token, TokenView};
use vstd::prelude::*;
use vstd::string::*;

verus! {

/// The diagnostic for bytes that match no rule of the lexical grammar.
pub open spec fn lex_error(span: Span) -> DiagnosticView {
    DiagnosticView {
        severity: Severity::Error,
        code: "E001"@,
        message: "An error occurred while lexing"@,
        span,
        notes: seq!["You might be running an outdated version of the compiler!"@],
    }
}

/// The diagnostics for the lexical errors at `spans`, in order.
pub open spec fn lex_errors(spans: Seq<Span>) -> Seq<DiagnosticView> {
    spans.map_values(|span: Span| lex_error(span))
}

/// What tokenizing a text gives: its tokens, if every byte outside
/// whitespace belongs to one, and else one diagnostic for each lexical
/// error, in source order.
pub open spec fn lex_result(bytes: Seq<u8>) -> Result<Seq<TokenView>, Seq<DiagnosticView>> {
    let output = lex(bytes);
    if output.errors.len() == 0 {
        Ok(output.tokens)
    } else {
        Err(lex_errors(output.errors))
    }
}

/// Cuts one source text into tokens.
pub struct Lexer<'a> {
    input: &'a str,
    reporter: Reporting<'a>,
}

impl<'a> Lexer<'a> {
    /// The reporter reports on the text that is tokenized.
    #[verifier::type_invariant]
    spec fn reports_on_input(self) -> bool {
        self.reporter.source_bytes() == self.input.spec_bytes()
    }

    /// The bytes of the text to tokenize.
    pub closed spec fn input_bytes(&self) -> Seq<u8> {
        self.input.spec_bytes()
    }

    /// The name of the source unit.
    pub closed spec fn name_view(&self) -> Seq<char> {
        self.reporter.name_view()
    }

    /// A lexer for the text `input` of the source unit called `name`.
    pub fn new(name: &'a str, input: &'a str) -> (lexer: Self)
        ensures
            lexer.input_bytes() == input.spec_bytes(),
            lexer.name_view() == name@,
    {
        Lexer { input, reporter: Reporting::new(name, input) }
    }

    /// The tokens of the text in source order, or, if any byte sequence
    /// matches no rule, the diagnostics of all lexical errors in source
    /// order.
    pub fn tokenize(&self) -> (result: Result<Vec<Token>, Vec<Diagnostic>>)
        ensures
            match result {
                Ok(tokens) => lex_result(self.input_bytes()) == Ok::<
                    Seq<TokenView>,
                    Seq<DiagnosticView>,
                >(token_views(tokens@)),
                Err(errors) => lex_result(self.input_bytes()) == Err::<
                    Seq<TokenView>,
                    Seq<DiagnosticView>,
                >(diagnostic_views(errors@)),
            },
    {
        proof {
            use_type_invariant(self);
        }
        let bytes = self.input.as_bytes();
        let mut tokens: Vec<Token> = Vec::new();
        let mut errors: Vec<Diagnostic> = Vec::new();
        let ghost mut spans: Seq<Span> = Seq::empty();
        let mut pos: usize = 0;
        while pos < bytes.len()
            invariant
                pos <= bytes.len(),
                bytes@ == self.input.spec_bytes(),
                self.reporter.source_bytes() == self.input.spec_bytes(),
                lex(bytes@).tokens == token_views(tokens@) + scan(bytes@, pos as int).tokens,
                lex(bytes@).errors == spans + scan(bytes@, pos as int).errors,
                diagnostic_views(errors@) == lex_errors(spans),
            decreases bytes.len() - pos,
        {
            let ghost before = scan(bytes@, pos as int);
            if space_byte(bytes[pos]) {
                pos = pos + 1;
            } else {
                proof {
                    lemma_step_bounds(bytes@, pos as int);
                }
                match next_token(self.input, bytes, pos) {
                    Ok(token) => {
                        let ghost rest = scan(bytes@, token.span.end as int);
                        assert(before.tokens == seq![token@] + rest.tokens);
                        assert(token_views(tokens@.push(token)) =~= token_views(tokens@).push(
                            token@,
                        ));
                        assert(token_views(tokens@).push(token@) + rest.tokens =~= token_views(
                            tokens@,
                        ) + before.tokens);
                        pos = token.span.end;
                        tokens.push(token);
                    },
                    Err(span) => {
                        let ghost rest = scan(bytes@, span.end as int);
                        assert(before.errors == seq![span] + rest.errors);
                        assert(spans.push(span) + rest.errors =~= spans + before.errors);
                        let mut notes: Vec<String> = Vec::new();
                        notes.push("You might be running an outdated version of the compiler!".to_owned());
                        assert(text_views(notes@) =~= seq![
                            "You might be running an outdated version of the compiler!"@,
                        ]);
                        let error = self.reporter.emit_error(
                            "An error occurred while lexing".to_owned(),
                            span,
                            notes,
                            "E001".to_owned(),
                        );
                        assert(error@ == lex_error(span));
                        assert(diagnostic_views(errors@.push(error)) =~= lex_errors(spans.push(span))) by {
                            let old_views = diagnostic_views(errors@);
                            let new_views = diagnostic_views(errors@.push(error));
                            assert(old_views.len() == spans.len());
                            assert forall|k: int| 0 <= k < new_views.len() implies new_views[k]
                                == lex_errors(spans.push(span))[k] by {
                                if k < spans.len() {
                                    assert(new_views[k] == old_views[k]);
                                    assert(lex_errors(spans)[k] == lex_error(spans[k]));
                                }
                            }
                        }
                        proof {
                            spans = spans.push(span);
                        }
                        pos = span.end;
                        errors.push(error);
                    },
                }
            }
        }
        proof {
            assert(token_views(tokens@) + Seq::<TokenView>::empty() =~= token_views(tokens@));
            assert(spans + Seq::<Span>::empty() =~= spans);
        }
        if errors.len() > 0 {
            Err(errors)
        } else {
            assert(spans =~= Seq::<Span>::empty());
            Ok(tokens)
        }
    }
}

} // verus!
