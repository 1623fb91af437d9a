use zxx::ast::{AstNode, Param, Type, TypedValue};
use zxx::errors::{Diagnostic, Severity, Span};
use zxx::parser::Parser;

fn parse_ok(source: &str) -> (AstNode, Vec<Diagnostic>) {
    let mut parser = Parser::new("unit.zxx", source);
    let document = parser.parse().expect("the source parses");
    (document, parser.diagnostics().clone())
}

fn parse_err(source: &str) -> (Vec<Diagnostic>, Vec<Diagnostic>) {
    let mut parser = Parser::new("unit.zxx", source);
    let errors = parser.parse().expect_err("the source does not parse");
    (errors, parser.diagnostics().clone())
}

fn top_level(document: &AstNode) -> &Vec<AstNode> {
    match document {
        AstNode::Document { body, .. } => match body.as_ref() {
            AstNode::Block { body, .. } => body,
            other => panic!("the body of a document is a block, not {:?}", other),
        },
        other => panic!("not a document: {:?}", other),
    }
}

fn body_of(source: &str) -> Vec<AstNode> {
    let (document, _) = parse_ok(source);
    let mut declarations = match document {
        AstNode::Document { body, .. } => match *body {
            AstNode::Block { body, .. } => body,
            other => panic!("the body of a document is a block, not {:?}", other),
        },
        other => panic!("not a document: {:?}", other),
    };
    assert_eq!(declarations.len(), 1);
    match declarations.remove(0) {
        AstNode::FuncDeclaration { body, .. } => match *body {
            AstNode::Block { body, .. } => body,
            other => panic!("the body of a function is a block, not {:?}", other),
        },
        other => panic!("not a function: {:?}", other),
    }
}

fn only_error(source: &str) -> Diagnostic {
    let (errors, emitted) = parse_err(source);
    assert_eq!(errors.len(), 1);
    assert_eq!(emitted.last(), errors.last());
    let error = errors[0].clone();
    assert_eq!(error.severity, Severity::Error);
    error
}

#[test]
fn test_backend() {
    let mut parser = Parser::new("test.rs", "func MyTestFunction() { \nprintLn(\"Hello, world!\") \n}");
    let ast = parser.parse();

    println!("{:?}", ast)
}

#[test]
fn hello_world_parses_to_a_call() {
    let source = "func MyTestFunction() { \nprintLn(\"Hello, world!\") \n}";
    let (document, emitted) = parse_ok(source);
    assert!(emitted.is_empty());
    assert_eq!(
        document,
        AstNode::Document {
            span: Span { start: 5, end: 52 },
            file_name: "unit.zxx".to_string(),
            body: Box::new(AstNode::Block {
                span: Span { start: 5, end: 52 },
                body: vec![AstNode::FuncDeclaration {
                    span: Span { start: 5, end: 52 },
                    name: "MyTestFunction".to_string(),
                    params: vec![],
                    returns: Type::Void,
                    body: Box::new(AstNode::Block {
                        span: Span { start: 25, end: 49 },
                        body: vec![AstNode::FunctionCall {
                            span: Span { start: 25, end: 49 },
                            name: "printLn".to_string(),
                            param_list: vec![TypedValue::StringVal("Hello, world!".to_string())],
                        }],
                    }),
                }],
            }),
        }
    );
}

#[test]
fn empty_function_is_one_declaration() {
    let (document, emitted) = parse_ok("func f() { }");
    assert!(emitted.is_empty());
    let declarations = top_level(&document);
    assert_eq!(declarations.len(), 1);
    assert_eq!(
        declarations[0],
        AstNode::FuncDeclaration {
            span: Span { start: 5, end: 12 },
            name: "f".to_string(),
            params: vec![],
            returns: Type::Void,
            body: Box::new(AstNode::Block { span: Span { start: 9, end: 12 }, body: vec![] }),
        }
    );
}

#[test]
fn function_span_runs_from_name_to_closing_brace() {
    let (document, _) = parse_ok("func f(){}");
    let declarations = top_level(&document);
    assert_eq!(declarations[0].span(), Some(Span { start: 5, end: 10 }));
    assert_eq!(document.span(), Some(Span { start: 5, end: 10 }));
}

#[test]
fn tokens_outside_functions_are_warned_about() {
    let (document, emitted) = parse_ok("1 + func f() {} ; x");
    assert_eq!(top_level(&document).len(), 1);
    let spans: Vec<Span> = emitted.iter().map(|warning| warning.span).collect();
    assert_eq!(
        spans,
        vec![
            Span { start: 0, end: 1 },
            Span { start: 2, end: 3 },
            Span { start: 16, end: 17 },
            Span { start: 18, end: 19 },
        ]
    );
    for warning in &emitted {
        assert_eq!(warning.severity, Severity::Warning);
        assert_eq!(warning.code, "PAR1");
        assert_eq!(warning.message, "unrecognized top-level construct");
        assert!(warning.notes.is_empty());
    }
}

#[test]
fn text_without_a_function_is_an_empty_document() {
    let (document, emitted) = parse_ok("a b c");
    assert_eq!(emitted.len(), 3);
    assert_eq!(
        document,
        AstNode::Document {
            span: Span { start: 0, end: 5 },
            file_name: "unit.zxx".to_string(),
            body: Box::new(AstNode::Block { span: Span { start: 0, end: 5 }, body: vec![] }),
        }
    );
}

#[test]
fn empty_text_is_an_empty_document() {
    let (document, emitted) = parse_ok("");
    assert!(emitted.is_empty());
    assert_eq!(
        document,
        AstNode::Document {
            span: Span { start: 0, end: 0 },
            file_name: "unit.zxx".to_string(),
            body: Box::new(AstNode::Block { span: Span { start: 0, end: 0 }, body: vec![] }),
        }
    );
}

#[test]
fn number_in_place_of_function_name_is_rejected() {
    let error = only_error("func 123() {}");
    assert_eq!(error.code, "E003");
    assert_eq!(error.span, Span { start: 5, end: 8 });
    assert_eq!(error.message, "Expected identifier for function declaration, got number 123");
    assert!(error.notes.is_empty());
}

#[test]
fn missing_tokens_at_the_end_are_rejected() {
    let error = only_error("func");
    assert_eq!((error.code.as_str(), error.span), ("E002", Span { start: 0, end: 4 }));
    assert_eq!(error.message, "Expected identifier for function declaration");
    let error = only_error("func f");
    assert_eq!((error.code.as_str(), error.span), ("E002", Span { start: 5, end: 6 }));
    assert_eq!(error.message, "Expected parenthesis after function identifier");
    let error = only_error("func f(");
    assert_eq!((error.code.as_str(), error.span), ("E002", Span { start: 6, end: 7 }));
    assert_eq!(error.message, "Expected parameter name");
    let error = only_error("func f()");
    assert_eq!((error.code.as_str(), error.span), ("E002", Span { start: 7, end: 8 }));
    assert_eq!(error.message, "Expected brace after function parameters");
    let error = only_error("func f() {");
    assert_eq!((error.code.as_str(), error.span), ("E002", Span { start: 9, end: 10 }));
    assert_eq!(error.message, "Expected '}' to close the block");
}

#[test]
fn wrong_tokens_in_the_header_are_rejected() {
    let error = only_error("func f {}");
    assert_eq!((error.code.as_str(), error.span), ("E003", Span { start: 7, end: 8 }));
    assert_eq!(error.message, "Expected parenthesis after function identifier, got '{'");
    let error = only_error("func f() x");
    assert_eq!((error.code.as_str(), error.span), ("E003", Span { start: 9, end: 10 }));
    assert_eq!(error.message, "Expected brace after function parameters, got identifier x");
    let error = only_error("func func");
    assert_eq!((error.code.as_str(), error.span), ("E003", Span { start: 5, end: 9 }));
}

#[test]
fn an_error_stops_the_parser() {
    let (errors, emitted) = parse_err("x func 1 func f() {} y");
    assert_eq!(errors.len(), 1);
    assert_eq!(errors[0].code, "E003");
    let codes: Vec<&str> = emitted.iter().map(|diagnostic| diagnostic.code.as_str()).collect();
    assert_eq!(codes, vec!["PAR1", "E003"]);
}

#[test]
fn parameters_keep_their_order() {
    let (document, _) = parse_ok("func f(a: int, b: string, c: Point, d: null, e: float, g: bool, h: void) {}");
    match &top_level(&document)[0] {
        AstNode::FuncDeclaration { params, returns, .. } => {
            assert_eq!(*returns, Type::Void);
            assert_eq!(
                *params,
                vec![
                    Param { name: "a".to_string(), param_type: Type::Int },
                    Param { name: "b".to_string(), param_type: Type::String },
                    Param { name: "c".to_string(), param_type: Type::Reference },
                    Param { name: "d".to_string(), param_type: Type::Null },
                    Param { name: "e".to_string(), param_type: Type::Float },
                    Param { name: "g".to_string(), param_type: Type::Boolean },
                    Param { name: "h".to_string(), param_type: Type::Void },
                ]
            );
        }
        other => panic!("not a function: {:?}", other),
    }
}

#[test]
fn duplicate_parameter_is_rejected() {
    let error = only_error("func f(a: int, b: int, a: string) {}");
    assert_eq!(error.code, "E005");
    assert_eq!(error.span, Span { start: 23, end: 24 });
    assert_eq!(error.message, "Duplicate parameter name a");
}

#[test]
fn malformed_parameters_are_rejected() {
    assert_eq!(only_error("func f(1) {}").message, "Expected parameter name, got number 1");
    assert_eq!(only_error("func f(a) {}").message, "Expected ':' after parameter name, got ')'");
    assert_eq!(only_error("func f(a: 1) {}").message, "Expected parameter type, got number 1");
    assert_eq!(only_error("func f(a: int b: int) {}").message, "Expected ',' or ')' after parameter, got identifier b");
    assert_eq!(only_error("func f(a: int,) {}").message, "Expected parameter name, got ')'");
}

#[test]
fn mutable_variable_takes_a_value_of_its_type() {
    let body = body_of("func f() { var mutable x = 1; x = 2; }");
    assert_eq!(
        body,
        vec![
            AstNode::VarDeclaration {
                span: Span { start: 11, end: 28 },
                name: "x".to_string(),
                is_mutable: true,
                is_static: false,
                value: TypedValue::IntVal(1),
            },
            AstNode::VarAssignment {
                span: Span { start: 30, end: 35 },
                name: "x".to_string(),
                new_value: TypedValue::IntVal(2),
            },
        ]
    );
}

#[test]
fn mutable_variable_refuses_a_value_of_another_type() {
    let error = only_error("func f() { var mutable x = 1; x = \"s\"; }");
    assert_eq!(error.code, "E004");
    assert_eq!(error.span, Span { start: 30, end: 37 });
    assert_eq!(error.message, "Mismatched types in assignment to variable x");
}

#[test]
fn immutable_variable_refuses_a_new_value() {
    let error = only_error("func f() { var x = 1; x = 2; }");
    assert_eq!(error.code, "E004");
    assert_eq!(error.span, Span { start: 22, end: 27 });
    assert_eq!(error.message, "Cannot assign twice to immutable variable x");
}

#[test]
fn undeclared_variable_takes_any_value() {
    let body = body_of("func f(x: int) { x = \"s\"; y = null; }");
    assert_eq!(body.len(), 2);
}

#[test]
fn latest_declaration_decides() {
    let body = body_of("func f() { var x = 1; var mutable x = \"a\"; x = \"b\"; }");
    assert_eq!(body.len(), 3);
    let error = only_error("func f() { var mutable x = 1; var x = 2; x = 3; }");
    assert_eq!(error.message, "Cannot assign twice to immutable variable x");
}

#[test]
fn declarations_of_a_block_end_with_it() {
    let body = body_of("func f() { var mutable x = 1; { var x = \"a\"; } x = 2; }");
    assert_eq!(body.len(), 3);
    let error = only_error("func f() { var mutable x = 1; { var x = \"a\"; x = \"b\"; } }");
    assert_eq!(error.message, "Cannot assign twice to immutable variable x");
    let error = only_error("func f() { var x = 1; if true { x = 2; } }");
    assert_eq!(error.message, "Cannot assign twice to immutable variable x");
}

#[test]
fn a_reference_is_of_no_other_type() {
    let error = only_error("func f() { var mutable x = 1; x = y; }");
    assert_eq!(error.message, "Mismatched types in assignment to variable x");
    let body = body_of("func f() { var mutable x = y; x = z; }");
    assert_eq!(body.len(), 2);
}

#[test]
fn declaration_modifiers() {
    let body = body_of("func f() { var static mutable a = true; var static b = null; var mutable = 1; var static = 2.5; }");
    assert_eq!(
        body,
        vec![
            AstNode::VarDeclaration {
                span: Span { start: 11, end: 38 },
                name: "a".to_string(),
                is_mutable: true,
                is_static: true,
                value: TypedValue::BoolVal(true),
            },
            AstNode::VarDeclaration {
                span: Span { start: 40, end: 59 },
                name: "b".to_string(),
                is_mutable: false,
                is_static: true,
                value: TypedValue::NullVal,
            },
            AstNode::VarDeclaration {
                span: Span { start: 61, end: 76 },
                name: "mutable".to_string(),
                is_mutable: false,
                is_static: false,
                value: TypedValue::IntVal(1),
            },
            AstNode::VarDeclaration {
                span: Span { start: 78, end: 94 },
                name: "static".to_string(),
                is_mutable: false,
                is_static: false,
                value: TypedValue::FloatVal("2.5".to_string()),
            },
        ]
    );
}

#[test]
fn malformed_declarations_are_rejected() {
    assert_eq!(only_error("func f() { var 1 = 2; }").message, "Expected variable name, got number 1");
    assert_eq!(only_error("func f() { var x 2; }").message, "Expected '=' after variable name, got number 2");
    assert_eq!(only_error("func f() { var x = ; }").message, "Expected value, got ';'");
    assert_eq!(only_error("func f() { x = }").message, "Expected value, got '}'");
    let error = only_error("func f() { var x =");
    assert_eq!((error.code.as_str(), error.message.as_str()), ("E002", "Expected value"));
}

#[test]
fn numbers_are_integers_where_they_fit() {
    let body = body_of("func f() { g(0, 007, 9223372036854775807, 9223372036854775808, 1.0, 99999999999999999999999) }");
    assert_eq!(
        body,
        vec![AstNode::FunctionCall {
            span: Span { start: 11, end: 92 },
            name: "g".to_string(),
            param_list: vec![
                TypedValue::IntVal(0),
                TypedValue::IntVal(7),
                TypedValue::IntVal(i64::MAX),
                TypedValue::FloatVal("9223372036854775808".to_string()),
                TypedValue::FloatVal("1.0".to_string()),
                TypedValue::FloatVal("99999999999999999999999".to_string()),
            ],
        }]
    );
}

#[test]
fn calls_and_references() {
    let body = body_of("func f() { g(); h(x, \"s\", true, null); k }");
    assert_eq!(
        body,
        vec![
            AstNode::FunctionCall { span: Span { start: 11, end: 14 }, name: "g".to_string(), param_list: vec![] },
            AstNode::FunctionCall {
                span: Span { start: 16, end: 37 },
                name: "h".to_string(),
                param_list: vec![
                    TypedValue::IdentVal("x".to_string()),
                    TypedValue::StringVal("s".to_string()),
                    TypedValue::BoolVal(true),
                    TypedValue::NullVal,
                ],
            },
            AstNode::Identifier { span: Span { start: 39, end: 40 }, name: "k".to_string() },
        ]
    );
    assert_eq!(only_error("func f() { g(,) }").message, "Expected argument, got ','");
    assert_eq!(only_error("func f() { g(1 2) }").message, "Expected ',' or ')' after argument, got number 2");
    assert_eq!(only_error("func f() { g(1,) }").message, "Expected argument, got ')'");
}

#[test]
fn return_with_and_without_a_value() {
    let body = body_of("func f() { return; return 1; return x }");
    assert_eq!(
        body,
        vec![
            AstNode::Return { span: Span { start: 11, end: 17 }, value: None },
            AstNode::Return { span: Span { start: 19, end: 27 }, value: Some(TypedValue::IntVal(1)) },
            AstNode::Return {
                span: Span { start: 29, end: 37 },
                value: Some(TypedValue::IdentVal("x".to_string())),
            },
        ]
    );
}

#[test]
fn conditionals_and_loops() {
    let body = body_of("func f() { if a { g() } else if b { } else { h } while c { } for items { k } }");
    assert_eq!(
        body,
        vec![
            AstNode::Conditional {
                span: Span { start: 11, end: 48 },
                condition: TypedValue::IdentVal("a".to_string()),
                body: Box::new(AstNode::Block {
                    span: Span { start: 18, end: 21 },
                    body: vec![AstNode::FunctionCall {
                        span: Span { start: 18, end: 21 },
                        name: "g".to_string(),
                        param_list: vec![],
                    }],
                }),
                otherwise: Box::new(AstNode::Conditional {
                    span: Span { start: 29, end: 48 },
                    condition: TypedValue::IdentVal("b".to_string()),
                    body: Box::new(AstNode::Block { span: Span { start: 34, end: 37 }, body: vec![] }),
                    otherwise: Box::new(AstNode::Block {
                        span: Span { start: 45, end: 46 },
                        body: vec![AstNode::Identifier { span: Span { start: 45, end: 46 }, name: "h".to_string() }],
                    }),
                }),
            },
            AstNode::WhileLoop {
                span: Span { start: 49, end: 60 },
                condition: TypedValue::IdentVal("c".to_string()),
                body: Box::new(AstNode::Block { span: Span { start: 57, end: 60 }, body: vec![] }),
            },
            AstNode::ForLoop {
                span: Span { start: 61, end: 76 },
                items: TypedValue::IdentVal("items".to_string()),
                body: Box::new(AstNode::Block {
                    span: Span { start: 73, end: 74 },
                    body: vec![AstNode::Identifier { span: Span { start: 73, end: 74 }, name: "k".to_string() }],
                }),
            },
        ]
    );
}

#[test]
fn conditional_without_else() {
    let body = body_of("func f() { if true { } }");
    assert_eq!(
        body,
        vec![AstNode::Conditional {
            span: Span { start: 11, end: 22 },
            condition: TypedValue::BoolVal(true),
            body: Box::new(AstNode::Block { span: Span { start: 19, end: 22 }, body: vec![] }),
            otherwise: Box::new(AstNode::Empty),
        }]
    );
}

#[test]
fn malformed_control_flow_is_rejected() {
    assert_eq!(only_error("func f() { if { } }").message, "Expected condition after 'if', got '{'");
    assert_eq!(only_error("func f() { if a b }").message, "Expected '{' after condition, got identifier b");
    assert_eq!(only_error("func f() { if a { } else b }").message, "Expected '{' or 'if' after 'else', got identifier b");
    assert_eq!(only_error("func f() { while { } }").message, "Expected condition after 'while', got '{'");
    assert_eq!(only_error("func f() { while a ; }").message, "Expected '{' after condition, got ';'");
    assert_eq!(only_error("func f() { for { } }").message, "Expected items after 'for', got '{'");
    assert_eq!(only_error("func f() { for a ) }").message, "Expected '{' after items, got ')'");
    assert_eq!(only_error("func f() { else }").message, "Expected statement, got 'else'");
    assert_eq!(only_error("func f() { + }").message, "Expected statement, got '+'");
    assert_eq!(only_error("func f() { \"s\" }").message, "Expected statement, got string \"s\"");
    assert_eq!(only_error("func f() { if a {").message, "Expected '}' to close the block");
}

#[test]
fn lexical_errors_stand_in_the_way_of_parsing() {
    let mut parser = Parser::new("unit.zxx", "func f() { # } $");
    assert!(parser.tokens().is_empty());
    assert_eq!(parser.diagnostics().len(), 2);
    let errors = parser.parse().unwrap_err();
    assert_eq!(errors.len(), 2);
    assert_eq!(errors[0].code, "E001");
    assert_eq!(errors[0].span, Span { start: 11, end: 12 });
    assert_eq!(errors[1].code, "E001");
    assert_eq!(errors[1].span, Span { start: 15, end: 16 });
    assert_eq!(parser.diagnostics(), &errors);
}

#[test]
fn parsing_twice_emits_twice() {
    let mut parser = Parser::new("unit.zxx", "x func f() {}");
    let first = parser.parse().unwrap();
    assert_eq!(parser.diagnostics().len(), 1);
    let second = parser.parse().unwrap();
    assert_eq!(first, second);
    assert_eq!(parser.diagnostics().len(), 2);
    assert_eq!(parser.tokens().len(), 7);
}

#[test]
fn several_functions() {
    let (document, emitted) = parse_ok("func a() {} func b(x: int) { return x }");
    assert!(emitted.is_empty());
    let declarations = top_level(&document);
    assert_eq!(declarations.len(), 2);
    assert_eq!(document.span(), Some(Span { start: 5, end: 39 }));
    assert_eq!(declarations[0].span(), Some(Span { start: 5, end: 11 }));
    assert_eq!(declarations[1].span(), Some(Span { start: 17, end: 39 }));
}
