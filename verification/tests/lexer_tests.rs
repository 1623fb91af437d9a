use zxx::errors::{Diagnostic, Severity, Span};
use zxx::lexer::token::{Token, TokenType};
use zxx::lexer::Lexer;

fn kinds(input: &str) -> Vec<TokenType> {
    Lexer::new("test.zxx", input)
        .tokenize()
        .expect("the input has no lexical error")
        .into_iter()
        .map(|token| token.token_type)
        .collect()
}

fn error_spans(input: &str) -> Vec<(usize, usize)> {
    Lexer::new("test.zxx", input)
        .tokenize()
        .expect_err("the input has a lexical error")
        .into_iter()
        .map(|error: Diagnostic| (error.span.start, error.span.end))
        .collect()
}

#[test]
fn empty_text_has_no_tokens() {
    assert_eq!(kinds(""), vec![]);
    assert_eq!(kinds(" \t\n "), vec![]);
}

#[test]
fn function_header_tokens_and_spans() {
    let tokens = Lexer::new("test.zxx", "func f(){}").tokenize().unwrap();
    assert_eq!(
        tokens,
        vec![
            Token { token_type: TokenType::Func, span: Span { start: 0, end: 4 } },
            Token { token_type: TokenType::Identifier("f".to_string()), span: Span { start: 5, end: 6 } },
            Token { token_type: TokenType::LParen, span: Span { start: 6, end: 7 } },
            Token { token_type: TokenType::RParen, span: Span { start: 7, end: 8 } },
            Token { token_type: TokenType::LBrace, span: Span { start: 8, end: 9 } },
            Token { token_type: TokenType::RBrace, span: Span { start: 9, end: 10 } },
        ]
    );
}

#[test]
fn double_equals_is_one_token() {
    assert_eq!(kinds("=="), vec![TokenType::DoubleEq]);
    assert_eq!(kinds("= ="), vec![TokenType::Eq, TokenType::Eq]);
    assert_eq!(kinds("==="), vec![TokenType::DoubleEq, TokenType::Eq]);
}

#[test]
fn greater_or_equal_is_one_token() {
    assert_eq!(kinds(">="), vec![TokenType::GreaterEq]);
    assert_eq!(kinds(">"), vec![TokenType::Greater]);
    assert_eq!(kinds("<= != && || !"), vec![
        TokenType::LessEq,
        TokenType::NotEq,
        TokenType::And,
        TokenType::Or,
        TokenType::Not,
    ]);
}

#[test]
fn keywords_win_over_identifiers() {
    assert_eq!(kinds("func"), vec![TokenType::Func]);
    assert_eq!(
        kinds("return if else for while"),
        vec![TokenType::Return, TokenType::If, TokenType::Else, TokenType::For, TokenType::While]
    );
    assert_eq!(kinds("funcs"), vec![TokenType::Identifier("funcs".to_string())]);
    assert_eq!(kinds("fun"), vec![TokenType::Identifier("fun".to_string())]);
    assert_eq!(kinds("_func"), vec![TokenType::Identifier("_func".to_string())]);
}

#[test]
fn literals() {
    assert_eq!(
        kinds("true false null truth 12 3.25 \"hi there\""),
        vec![
            TokenType::BoolLiteral(true),
            TokenType::BoolLiteral(false),
            TokenType::NullLiteral,
            TokenType::Identifier("truth".to_string()),
            TokenType::IntLiteral("12".to_string()),
            TokenType::IntLiteral("3.25".to_string()),
            TokenType::StringLiteral("hi there".to_string()),
        ]
    );
}

#[test]
fn number_takes_a_fraction_only_with_digits() {
    assert_eq!(kinds("1."), vec![TokenType::IntLiteral("1".to_string()), TokenType::Dot]);
    assert_eq!(
        kinds("1.5.2"),
        vec![
            TokenType::IntLiteral("1.5".to_string()),
            TokenType::Dot,
            TokenType::IntLiteral("2".to_string()),
        ]
    );
    assert_eq!(
        kinds("12ab"),
        vec![TokenType::IntLiteral("12".to_string()), TokenType::Identifier("ab".to_string())]
    );
}

#[test]
fn strings_keep_their_raw_text() {
    assert_eq!(kinds("\"\""), vec![TokenType::StringLiteral(String::new())]);
    assert_eq!(kinds("\"h\u{e9}llo \u{1f600}\""), vec![TokenType::StringLiteral("h\u{e9}llo \u{1f600}".to_string())]);
    let tokens = Lexer::new("test.zxx", "\"h\u{e9}\" x").tokenize().unwrap();
    assert_eq!(tokens[0].span, Span { start: 0, end: 5 });
    assert_eq!(tokens[1].span, Span { start: 6, end: 7 });
}

#[test]
fn lexical_errors_are_all_collected() {
    let errors = Lexer::new("test.zxx", "a # b $").tokenize().unwrap_err();
    assert_eq!(errors.len(), 2);
    for error in &errors {
        assert_eq!(error.severity, Severity::Error);
        assert_eq!(error.code, "E001");
        assert_eq!(error.message, "An error occurred while lexing");
        assert_eq!(error.notes, vec!["You might be running an outdated version of the compiler!".to_string()]);
    }
    assert_eq!(errors[0].span, Span { start: 2, end: 3 });
    assert_eq!(errors[1].span, Span { start: 6, end: 7 });
}

#[test]
fn lexical_error_spans() {
    assert_eq!(error_spans("&"), vec![(0, 1)]);
    assert_eq!(error_spans("& &"), vec![(0, 1), (2, 3)]);
    assert_eq!(error_spans("|x"), vec![(0, 1)]);
    assert_eq!(error_spans("\u{e9}"), vec![(0, 2)]);
    assert_eq!(error_spans("x \u{1f600}y"), vec![(2, 6)]);
    assert_eq!(error_spans("\r"), vec![(0, 1)]);
    assert_eq!(error_spans("\"abc"), vec![(0, 4)]);
    assert_eq!(error_spans("\"abc\nx"), vec![(0, 4)]);
    assert_eq!(error_spans("\"a\\\"b"), vec![(0, 2), (2, 3), (3, 5)]);
    assert_eq!(error_spans("\""), vec![(0, 1)]);
}

#[test]
fn every_symbol_has_its_token() {
    assert_eq!(
        kinds("+ - * / = == ! != > < >= <= && || ( ) { } [ ] ; : , . @"),
        vec![
            TokenType::Plus,
            TokenType::Minus,
            TokenType::Mul,
            TokenType::Slash,
            TokenType::Eq,
            TokenType::DoubleEq,
            TokenType::Not,
            TokenType::NotEq,
            TokenType::Greater,
            TokenType::Less,
            TokenType::GreaterEq,
            TokenType::LessEq,
            TokenType::And,
            TokenType::Or,
            TokenType::LParen,
            TokenType::RParen,
            TokenType::LBrace,
            TokenType::RBrace,
            TokenType::LBracket,
            TokenType::RBracket,
            TokenType::Semicolon,
            TokenType::Colon,
            TokenType::Comma,
            TokenType::Dot,
            TokenType::At,
        ]
    );
}

#[test]
fn symbols_need_no_space_between_them() {
    assert_eq!(
        kinds("a<=b&&!c||d>=-1"),
        vec![
            TokenType::Identifier("a".to_string()),
            TokenType::LessEq,
            TokenType::Identifier("b".to_string()),
            TokenType::And,
            TokenType::Not,
            TokenType::Identifier("c".to_string()),
            TokenType::Or,
            TokenType::Identifier("d".to_string()),
            TokenType::GreaterEq,
            TokenType::Minus,
            TokenType::IntLiteral("1".to_string()),
        ]
    );
    assert_eq!(kinds("!=="), vec![TokenType::NotEq, TokenType::Eq]);
    assert_eq!(kinds("<=>"), vec![TokenType::LessEq, TokenType::Greater]);
    assert_eq!(kinds("=!"), vec![TokenType::Eq, TokenType::Not]);
}

#[test]
fn reserved_words_are_whole_words() {
    assert_eq!(
        kinds("truefalse nulls iff elsee forwhile returnx True NULL"),
        vec![
            TokenType::Identifier("truefalse".to_string()),
            TokenType::Identifier("nulls".to_string()),
            TokenType::Identifier("iff".to_string()),
            TokenType::Identifier("elsee".to_string()),
            TokenType::Identifier("forwhile".to_string()),
            TokenType::Identifier("returnx".to_string()),
            TokenType::Identifier("True".to_string()),
            TokenType::Identifier("NULL".to_string()),
        ]
    );
    assert_eq!(
        kinds("func123 _ _9 a_b"),
        vec![
            TokenType::Identifier("func123".to_string()),
            TokenType::Identifier("_".to_string()),
            TokenType::Identifier("_9".to_string()),
            TokenType::Identifier("a_b".to_string()),
        ]
    );
}

#[test]
fn string_may_hold_anything_but_quote_backslash_and_line_breaks() {
    assert_eq!(
        kinds("\"a\tb  c#$\" \"func\""),
        vec![
            TokenType::StringLiteral("a\tb  c#$".to_string()),
            TokenType::StringLiteral("func".to_string()),
        ]
    );
    assert_eq!(error_spans("\"a\rb\""), vec![(0, 2), (2, 3), (4, 5)]);
    assert_eq!(error_spans("\"a\\b\""), vec![(0, 2), (2, 3), (4, 5)]);
}

#[test]
fn token_text_tokenizes_to_the_same_token() {
    let source = "func main(a: int) { var mutable x = 12.50; if x >= 3 && true { print(\"h\u{e9}\", null) } }";
    let tokens = Lexer::new("test.zxx", source).tokenize().unwrap();
    assert_eq!(tokens.len(), 29);
    for token in tokens {
        let text = &source[token.span.start..token.span.end];
        let again = Lexer::new("test.zxx", text).tokenize().unwrap();
        assert_eq!(again.len(), 1);
        assert_eq!(again[0].token_type, token.token_type);
        assert_eq!(again[0].span, Span { start: 0, end: text.len() });
    }
}

#[test]
fn tokens_stand_in_source_order_inside_the_text() {
    let source = " \tfunc\nf ( ) {\n\n} ";
    let tokens = Lexer::new("test.zxx", source).tokenize().unwrap();
    let mut end = 0;
    for token in &tokens {
        assert!(end <= token.span.start);
        assert!(token.span.start < token.span.end);
        end = token.span.end;
    }
    assert!(end <= source.len());
    assert_eq!(tokens[0].span, Span { start: 2, end: 6 });
    assert_eq!(tokens[5].span, Span { start: 16, end: 17 });
}

#[test]
fn hello_world_tokens() {
    let tokens = Lexer::new("test.rs", "func MyTestFunction() { \nprintLn(\"Hello, world!\") \n}")
        .tokenize()
        .unwrap();
    assert_eq!(
        tokens,
        vec![
            Token { token_type: TokenType::Func, span: Span { start: 0, end: 4 } },
            Token {
                token_type: TokenType::Identifier("MyTestFunction".to_string()),
                span: Span { start: 5, end: 19 },
            },
            Token { token_type: TokenType::LParen, span: Span { start: 19, end: 20 } },
            Token { token_type: TokenType::RParen, span: Span { start: 20, end: 21 } },
            Token { token_type: TokenType::LBrace, span: Span { start: 22, end: 23 } },
            Token {
                token_type: TokenType::Identifier("printLn".to_string()),
                span: Span { start: 25, end: 32 },
            },
            Token { token_type: TokenType::LParen, span: Span { start: 32, end: 33 } },
            Token {
                token_type: TokenType::StringLiteral("Hello, world!".to_string()),
                span: Span { start: 33, end: 48 },
            },
            Token { token_type: TokenType::RParen, span: Span { start: 48, end: 49 } },
            Token { token_type: TokenType::RBrace, span: Span { start: 51, end: 52 } },
        ]
    );
}
