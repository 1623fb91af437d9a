//! What holds of every sequence of tokens that is parsed.

use crate::ast::{distinct_names, type_of, AstView, ParamView, Type, ValueView};
use crate::errors::{DiagnosticView, Severity};
use crate::lexer::{lex_error, lex_result};
use crate::lexer::rules::lex;
use crate::lexer::token::{TokenKind, TokenView};
use crate::parser::grammar::{
    accepted_assignment, arguments_from, assignment, block_items, braced_block, conditional,
    declaration, document_span, function_declaration, has_param, kind_at, lookup, otherwise,
    parameter_list, parameters_from, parse_tokens, statement, top_level, type_named, unrecognized,
    value_at, Binding,
};
use crate::parser::parse_source;
use vstd::prelude::*;

verus! {

/// The warnings for the tokens from `from` up to `to`, one for each token,
/// in order.
pub open spec fn warnings(tokens: Seq<TokenView>, from: int, to: int) -> Seq<DiagnosticView> {
    Seq::new((to - from) as nat, |i: int| unrecognized(tokens[from + i].span))
}

/// Tokens of the top level that are not `func` are warned about, one
/// warning for each, and parsing goes on behind them as if they were not
/// there: what is read from `to` on is read, no more and no less.
pub proof fn lemma_leading_tokens(tokens: Seq<TokenView>, from: int, to: int)
    requires
        0 <= from <= to <= tokens.len(),
        forall|i: int| from <= i < to ==> (#[trigger] tokens[i]).kind != TokenKind::Func,
    ensures
        top_level(tokens, from).declarations == top_level(tokens, to).declarations,
        top_level(tokens, from).emitted == warnings(tokens, from, to) + top_level(tokens, to).emitted,
        top_level(tokens, from).failed == top_level(tokens, to).failed,
    decreases to - from,
{
    if from < to {
        lemma_leading_tokens(tokens, from + 1, to);
        assert(tokens[from].kind != TokenKind::Func);
        assert(top_level(tokens, from).emitted =~= warnings(tokens, from, to) + top_level(
            tokens,
            to,
        ).emitted) by {
            let rest = top_level(tokens, from + 1);
            assert(top_level(tokens, from).emitted == seq![unrecognized(tokens[from].span)]
                + rest.emitted);
            assert(seq![unrecognized(tokens[from].span)] + warnings(tokens, from + 1, to)
                =~= warnings(tokens, from, to));
        }
    } else {
        assert(warnings(tokens, from, to) + top_level(tokens, to).emitted =~= top_level(
            tokens,
            to,
        ).emitted);
    }
}

/// A text without `func` still parses: there is a document, it holds no
/// declaration, and every token was warned about, one warning for each.
pub proof fn lemma_no_function(file_name: Seq<char>, tokens: Seq<TokenView>)
    requires
        forall|i: int| 0 <= i < tokens.len() ==> (#[trigger] tokens[i]).kind != TokenKind::Func,
    ensures
        parse_tokens(file_name, tokens).emitted == warnings(tokens, 0, tokens.len() as int),
        parse_tokens(file_name, tokens).result == Ok::<AstView, Seq<DiagnosticView>>(
            AstView::Document {
                span: document_span(tokens, Seq::empty()),
                file_name,
                body: Box::new(
                    AstView::Block { span: document_span(tokens, Seq::empty()), body: Seq::empty() },
                ),
            },
        ),
{
    lemma_leading_tokens(tokens, 0, tokens.len() as int);
    assert(warnings(tokens, 0, tokens.len() as int) + Seq::<DiagnosticView>::empty() =~= warnings(
        tokens,
        0,
        tokens.len() as int,
    ));
}

/// A parameter list fails with an error only.
pub proof fn lemma_parameters_fail_with_error(tokens: Seq<TokenView>, pos: int, done: Seq<ParamView>)
    ensures
        parameters_from(tokens, pos, done) matches Err(diagnostic) ==> diagnostic.severity
            == Severity::Error,
    decreases tokens.len() - pos,
{
    if parameters_from(tokens, pos, done) is Err && 0 <= pos && pos + 3 < tokens.len() {
        lemma_parameters_fail_with_error(
            tokens,
            pos + 4,
            done.push(
                ParamView {
                    name: tokens[pos].kind->Identifier_0,
                    param_type: type_named(tokens[pos + 2].kind).unwrap(),
                },
            ),
        );
    }
}

/// An argument list fails with an error only.
pub proof fn lemma_arguments_fail_with_error(tokens: Seq<TokenView>, pos: int, done: Seq<ValueView>)
    ensures
        arguments_from(tokens, pos, done) matches Err(diagnostic) ==> diagnostic.severity
            == Severity::Error,
    decreases tokens.len() - pos,
{
    if arguments_from(tokens, pos, done) is Err && 0 <= pos && pos + 1 < tokens.len() {
        lemma_arguments_fail_with_error(
            tokens,
            pos + 2,
            done.push(value_at(tokens, pos).unwrap()),
        );
    }
}

/// A statement fails with an error only.
pub proof fn lemma_statement_fails_with_error(tokens: Seq<TokenView>, pos: int, scope: Seq<Binding>)
    ensures
        statement(tokens, pos, scope) matches Err(diagnostic) ==> diagnostic.severity
            == Severity::Error,
    decreases tokens.len() - pos, 1int,
{
    if 0 <= pos < tokens.len() {
        lemma_arguments_fail_with_error(tokens, pos + 2, Seq::empty());
        lemma_block_fails_with_error(tokens, pos, scope);
        lemma_conditional_fails_with_error(tokens, pos, scope);
        if pos + 2 < tokens.len() {
            lemma_block_fails_with_error(tokens, pos + 2, scope);
        }
    }
}

/// A conditional fails with an error only.
pub proof fn lemma_conditional_fails_with_error(tokens: Seq<TokenView>, pos: int, scope: Seq<Binding>)
    ensures
        conditional(tokens, pos, scope) matches Err(diagnostic) ==> diagnostic.severity
            == Severity::Error,
    decreases tokens.len() - pos, 0int,
{
    if 0 <= pos + 2 < tokens.len() {
        lemma_block_fails_with_error(tokens, pos + 2, scope);
        match braced_block(tokens, pos + 2, scope) {
            Ok((_, after)) => {
                if pos + 2 < after <= tokens.len() {
                    lemma_otherwise_fails_with_error(tokens, after, scope);
                }
            },
            Err(_) => {},
        }
    }
}

/// What follows an `else` fails with an error only.
pub proof fn lemma_otherwise_fails_with_error(tokens: Seq<TokenView>, pos: int, scope: Seq<Binding>)
    ensures
        otherwise(tokens, pos, scope) matches Err(diagnostic) ==> diagnostic.severity
            == Severity::Error,
    decreases tokens.len() - pos, 1int,
{
    if 0 <= pos + 1 < tokens.len() {
        lemma_conditional_fails_with_error(tokens, pos + 1, scope);
        lemma_block_fails_with_error(tokens, pos + 1, scope);
    }
}

/// A block fails with an error only.
pub proof fn lemma_block_fails_with_error(tokens: Seq<TokenView>, pos: int, scope: Seq<Binding>)
    ensures
        braced_block(tokens, pos, scope) matches Err(diagnostic) ==> diagnostic.severity
            == Severity::Error,
    decreases tokens.len() - pos, 0int,
{
    if 0 <= pos < tokens.len() {
        lemma_items_fail_with_error(tokens, pos + 1, scope, Seq::empty());
    }
}

/// The statements of a block fail with an error only.
pub proof fn lemma_items_fail_with_error(
    tokens: Seq<TokenView>,
    pos: int,
    scope: Seq<Binding>,
    done: Seq<AstView>,
)
    ensures
        block_items(tokens, pos, scope, done) matches Err(diagnostic) ==> diagnostic.severity
            == Severity::Error,
    decreases tokens.len() - pos, 2int,
{
    if 0 <= pos < tokens.len() {
        if tokens[pos].kind == TokenKind::RBrace {
        } else if tokens[pos].kind == TokenKind::Semicolon {
            lemma_items_fail_with_error(tokens, pos + 1, scope, done);
        } else {
            lemma_statement_fails_with_error(tokens, pos, scope);
            match statement(tokens, pos, scope) {
                Ok(read) => {
                    if pos < read.next <= tokens.len() {
                        lemma_items_fail_with_error(
                            tokens,
                            read.next,
                            read.scope,
                            done.push(read.node),
                        );
                    }
                },
                Err(_) => {},
            }
        }
    }
}

/// A function declaration fails with an error only.
pub proof fn lemma_function_fails_with_error(tokens: Seq<TokenView>, pos: int)
    ensures
        function_declaration(tokens, pos) matches Err(diagnostic) ==> diagnostic.severity
            == Severity::Error,
{
    reveal(function_declaration);
    lemma_parameters_fail_with_error(tokens, pos + 3, Seq::empty());
    match parameter_list(tokens, pos + 3) {
        Ok((_, brace_at)) => {
            lemma_block_fails_with_error(tokens, brace_at, Seq::empty());
        },
        Err(_) => {},
    }
}

/// Where the top level fails, an error was emitted last and only warnings
/// before it; where it does not fail, only warnings were emitted.
pub proof fn lemma_top_level_emits(tokens: Seq<TokenView>, pos: int)
    ensures
        top_level(tokens, pos).failed ==> top_level(tokens, pos).emitted.len() > 0 && top_level(
            tokens,
            pos,
        ).emitted.last().severity == Severity::Error,
        forall|i: int|
            0 <= i < top_level(tokens, pos).emitted.len() - (if top_level(tokens, pos).failed {
                1int
            } else {
                0int
            }) ==> (#[trigger] top_level(tokens, pos).emitted[i]).severity == Severity::Warning,
    decreases tokens.len() - pos,
{
    if 0 <= pos < tokens.len() {
        let all = top_level(tokens, pos);
        if tokens[pos].kind == TokenKind::Func {
            lemma_function_fails_with_error(tokens, pos);
            match function_declaration(tokens, pos) {
                Ok((_, next)) => {
                    if pos < next <= tokens.len() {
                        lemma_top_level_emits(tokens, next);
                    }
                },
                Err(_) => {},
            }
        } else {
            lemma_top_level_emits(tokens, pos + 1);
            let rest = top_level(tokens, pos + 1);
            assert forall|i: int|
                0 <= i < all.emitted.len() - (if all.failed {
                    1int
                } else {
                    0int
                }) implies (#[trigger] all.emitted[i]).severity == Severity::Warning by {
                if i > 0 {
                    assert(all.emitted[i] == rest.emitted[i - 1]);
                }
            }
            if all.failed {
                assert(all.emitted.last() == rest.emitted.last());
            }
        }
    }
}

/// Parsing a text is a success or a failure, and nothing in between.
/// Where there is a document, nothing worse than a warning was emitted.
/// Where there is none, there is at least one diagnostic that stands in its
/// way, and each of them is an error.
pub proof fn lemma_success_or_failure(file_name: Seq<char>, bytes: Seq<u8>)
    ensures
        match parse_source(file_name, bytes).result {
            Ok(document) => {
                &&& document is Document
                &&& forall|i: int|
                    0 <= i < parse_source(file_name, bytes).emitted.len() ==> (
                    #[trigger] parse_source(file_name, bytes).emitted[i]).severity
                        == Severity::Warning
            },
            Err(errors) => {
                &&& errors.len() > 0
                &&& forall|i: int|
                    0 <= i < errors.len() ==> (#[trigger] errors[i]).severity == Severity::Error
            },
        },
{
    match lex_result(bytes) {
        Ok(tokens) => {
            lemma_top_level_emits(tokens, 0);
        },
        Err(errors) => {
            let spans = lex(bytes).errors;
            assert(errors.len() == spans.len());
            assert forall|i: int| 0 <= i < errors.len() implies (#[trigger] errors[i]).severity
                == Severity::Error by {
                assert(errors[i] == lex_error(spans[i]));
            }
        },
    }
}

/// No two parameters of a parameter list have the same name.
pub proof fn lemma_parameters_distinct(tokens: Seq<TokenView>, pos: int, done: Seq<ParamView>)
    requires
        distinct_names(done),
    ensures
        parameters_from(tokens, pos, done) matches Ok((params, _)) ==> distinct_names(params),
    decreases tokens.len() - pos,
{
    if parameters_from(tokens, pos, done) is Ok {
        let name = tokens[pos].kind->Identifier_0;
        let params = done.push(
            ParamView { name, param_type: type_named(tokens[pos + 2].kind).unwrap() },
        );
        assert(!has_param(done, name));
        assert forall|i: int, j: int| 0 <= i < j < params.len() implies (#[trigger] params[i]).name
            != (#[trigger] params[j]).name by {
            if j == done.len() {
                assert(done[i].name != name);
            } else {
                assert(done[i].name != done[j].name);
            }
        }
        if kind_at(tokens, pos + 3) == Some(TokenKind::Comma) {
            lemma_parameters_distinct(tokens, pos + 4, params);
        }
    }
}

/// No two parameters of a parameter list that is read have the same name.
pub proof fn lemma_parameter_list_distinct(tokens: Seq<TokenView>, pos: int)
    ensures
        parameter_list(tokens, pos) matches Ok((params, _)) ==> distinct_names(params),
{
    lemma_parameters_distinct(tokens, pos, Seq::empty());
}

/// A function that the grammar reads: its parameters have distinct names,
/// it returns nothing, and its body is a block.
pub open spec fn is_function(node: AstView) -> bool {
    &&& node matches AstView::FuncDeclaration { params, returns: result, body, .. }
    &&& distinct_names(params)
    &&& result == Type::Void
    &&& *body is Block
}

/// Every declaration of the top level is a function.
pub proof fn lemma_declarations_are_functions(tokens: Seq<TokenView>, pos: int)
    ensures
        forall|i: int|
            0 <= i < top_level(tokens, pos).declarations.len() ==> is_function(
                #[trigger] top_level(tokens, pos).declarations[i],
            ),
    decreases tokens.len() - pos,
{
    let all = top_level(tokens, pos).declarations;
    assert forall|i: int| 0 <= i < all.len() implies is_function(#[trigger] all[i]) by {
        if 0 <= pos < tokens.len() {
            if tokens[pos].kind == TokenKind::Func {
                match function_declaration(tokens, pos) {
                    Ok((node, next)) => {
                        assert(is_function(node)) by {
                            reveal(function_declaration);
                            lemma_parameter_list_distinct(tokens, pos + 3);
                        }
                        if pos < next <= tokens.len() {
                            lemma_declarations_are_functions(tokens, next);
                            let rest = top_level(tokens, next).declarations;
                            if i > 0 {
                                assert(all[i] == rest[i - 1]);
                            }
                        }
                    },
                    Err(_) => {},
                }
            } else {
                lemma_declarations_are_functions(tokens, pos + 1);
                assert(all[i] == top_level(tokens, pos + 1).declarations[i]);
            }
        }
    }
}

/// An assignment is accepted if and only if it gives a value and either no
/// declaration of the variable is visible, or the visible one is mutable
/// and its value is of the type of the new value.
pub proof fn lemma_assignment_accepted(tokens: Seq<TokenView>, pos: int, scope: Seq<Binding>)
    ensures
        assignment(tokens, pos, scope) is Ok <==> accepted_assignment(tokens, pos, scope),
        assignment(tokens, pos, scope) matches Ok(read) ==> read.node matches AstView::VarAssignment {
            name,
            new_value,
            ..
        } && name == tokens[pos].kind->Identifier_0 && Some(new_value) == value_at(tokens, pos + 2)
            && read.scope == scope,
{
}

/// A declaration that is read is the one that is visible after it, with
/// its mutability and the type of its value.
pub proof fn lemma_declaration_is_visible(tokens: Seq<TokenView>, pos: int, scope: Seq<Binding>)
    ensures
        declaration(tokens, pos, scope) matches Ok(read) ==> read.node matches AstView::VarDeclaration {
            name,
            is_mutable,
            value,
            ..
        } && lookup(read.scope, name) == Some(Binding { name, is_mutable, declared: type_of(value) }),
{
}

} // verus!
