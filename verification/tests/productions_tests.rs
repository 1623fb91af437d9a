use zxx::ast::{AstNode, Param, Type, TypedValue};
use zxx::errors::{Diagnostic, Reporting, Severity, Span};
use zxx::lexer::token::{Token, TokenType};
use zxx::lexer::Lexer;
use zxx::parser::cursor::Cursor;
use zxx::parser::productions::{eval_fn_body, eval_fn_params};

fn tokens_of(source: &str) -> Vec<Token> {
    Lexer::new("unit.zxx", source).tokenize().unwrap()
}

/// A cursor just after the first token of the kind of `wanted`.
fn cursor_after<'t>(tokens: &'t Vec<Token>, wanted: &TokenType) -> Cursor<'t> {
    let mut cursor = Cursor::new(tokens);
    while let Some(token) = cursor.advance() {
        if token.token_type.same_kind(wanted) {
            return cursor;
        }
    }
    panic!("the tokens hold no {:?}", wanted)
}

fn body_at(source: &str) -> (Result<(AstNode, Token), Diagnostic>, usize) {
    let tokens = tokens_of(source);
    let reporter = Reporting::new("unit.zxx", source);
    let mut cursor = cursor_after(&tokens, &TokenType::LBrace);
    let read = eval_fn_body(&reporter, &mut cursor);
    (read, cursor.index())
}

fn params_at(source: &str) -> (Result<(Vec<Param>, Token), Diagnostic>, usize) {
    let tokens = tokens_of(source);
    let reporter = Reporting::new("unit.zxx", source);
    let mut cursor = cursor_after(&tokens, &TokenType::LParen);
    let read = eval_fn_params(&reporter, &mut cursor);
    (read, cursor.index())
}

fn statements(body: &AstNode) -> &Vec<AstNode> {
    match body {
        AstNode::Block { body, .. } => body,
        other => panic!("not a block: {:?}", other),
    }
}

#[test]
fn body_starts_after_the_opening_brace() {
    let (read, index) = body_at("func f(){}");
    let (body, close) = read.unwrap();
    assert_eq!(close, Token { token_type: TokenType::RBrace, span: Span { start: 9, end: 10 } });
    assert_eq!(body, AstNode::Block { span: Span { start: 8, end: 10 }, body: vec![] });
    assert_eq!(index, 6);
}

#[test]
fn body_reads_its_first_statement() {
    let (read, index) = body_at("func f() { var mutable x = 1; x = 2; }");
    let (body, close) = read.unwrap();
    assert_eq!(close, Token { token_type: TokenType::RBrace, span: Span { start: 37, end: 38 } });
    assert_eq!(index, 16);
    assert_eq!(
        body,
        AstNode::Block {
            span: Span { start: 11, end: 35 },
            body: vec![
                AstNode::VarDeclaration {
                    span: Span { start: 11, end: 28 },
                    name: "x".to_string(),
                    is_mutable: true,
                    is_static: false,
                    value: TypedValue::IntVal(1),
                },
                AstNode::VarAssignment {
                    span: Span { start: 30, end: 35 },
                    name: "x".to_string(),
                    new_value: TypedValue::IntVal(2),
                },
            ],
        }
    );
    match (&statements(&body)[0], &statements(&body)[1]) {
        (AstNode::VarDeclaration { value, .. }, AstNode::VarAssignment { new_value, .. }) => {
            assert_eq!(value.value_type(), new_value.value_type());
        }
        other => panic!("not a declaration and an assignment: {:?}", other),
    }
}

#[test]
fn body_refuses_a_value_of_another_type() {
    let (read, _) = body_at("func f() { var mutable x = 1; x = \"s\"; }");
    let error = read.unwrap_err();
    assert_eq!(error.severity, Severity::Error);
    assert_eq!(error.code, "E004");
    assert_eq!(error.span, Span { start: 30, end: 37 });
    assert_eq!(error.message, "Mismatched types in assignment to variable x");
}

#[test]
fn body_refuses_a_new_value_for_an_immutable_variable() {
    let (read, _) = body_at("func f() { var x = 1; x = 2; }");
    let error = read.unwrap_err();
    assert_eq!(error.severity, Severity::Error);
    assert_eq!(error.code, "E004");
    assert_eq!(error.span, Span { start: 22, end: 27 });
    assert_eq!(error.message, "Cannot assign twice to immutable variable x");
}

#[test]
fn body_without_closing_brace_is_rejected() {
    let (read, index) = body_at("func f() {");
    let error = read.unwrap_err();
    assert_eq!(error.code, "E002");
    assert_eq!(error.span, Span { start: 9, end: 10 });
    assert_eq!(error.message, "Expected '}' to close the block");
    assert_eq!(index, 5);
    let (read, _) = body_at("func f() { g() ");
    let error = read.unwrap_err();
    assert_eq!(error.code, "E002");
    assert_eq!(error.span, Span { start: 13, end: 14 });
}

#[test]
fn body_ends_with_its_own_closing_brace() {
    let source = "func f() { a; { b } if c { d } else { e } g(1) } func h() { }";
    let (read, index) = body_at(source);
    let (body, close) = read.unwrap();
    assert_eq!(close, Token { token_type: TokenType::RBrace, span: Span { start: 47, end: 48 } });
    assert_eq!(index, 24);
    let children = statements(&body);
    assert_eq!(children.len(), 4);
    let mut end = 10;
    for child in children {
        let span = child.span().unwrap();
        assert!(end <= span.start);
        assert!(span.start <= span.end);
        assert!(span.end <= close.span.start);
        end = span.end;
    }
}

#[test]
fn parameters_start_after_the_opening_parenthesis() {
    let (read, index) = params_at("func f() {}");
    let (params, close) = read.unwrap();
    assert!(params.is_empty());
    assert_eq!(close, Token { token_type: TokenType::RParen, span: Span { start: 7, end: 8 } });
    assert_eq!(index, 4);

    let (read, index) = params_at("func f(a: int, b: string) {}");
    let (params, close) = read.unwrap();
    assert_eq!(
        params,
        vec![
            Param { name: "a".to_string(), param_type: Type::Int },
            Param { name: "b".to_string(), param_type: Type::String },
        ]
    );
    assert_eq!(close, Token { token_type: TokenType::RParen, span: Span { start: 24, end: 25 } });
    assert_eq!(index, 11);
}

#[test]
fn parameters_fail_with_their_own_errors() {
    let (read, index) = params_at("func f(");
    let error = read.unwrap_err();
    assert_eq!((error.code.as_str(), error.span), ("E002", Span { start: 6, end: 7 }));
    assert_eq!(error.message, "Expected parameter name");
    assert_eq!(index, 3);

    let (read, _) = params_at("func f(a: int");
    let error = read.unwrap_err();
    assert_eq!((error.code.as_str(), error.span), ("E002", Span { start: 10, end: 13 }));
    assert_eq!(error.message, "Expected ',' or ')' after parameter");

    let (read, _) = params_at("func f(a int)");
    let error = read.unwrap_err();
    assert_eq!((error.code.as_str(), error.span), ("E003", Span { start: 9, end: 12 }));
    assert_eq!(error.message, "Expected ':' after parameter name, got identifier int");

    let (read, _) = params_at("func f(a: int, a: int)");
    let error = read.unwrap_err();
    assert_eq!(error.severity, Severity::Error);
    assert_eq!((error.code.as_str(), error.span), ("E005", Span { start: 15, end: 16 }));
    assert_eq!(error.message, "Duplicate parameter name a");
}
