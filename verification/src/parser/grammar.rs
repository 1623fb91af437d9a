//! The grammar: what a sequence of tokens means.
//!
//! ```text
//! document    := { function | any other token }
//! function    := "func" IDENT "(" parameters "{" block
//! parameters  := ")" | parameter { "," parameter } ")"
//! parameter   := IDENT ":" type
//! type        := IDENT | "null"
//! block       := { ";" | statement } "}"
//! statement   := "var" { "mutable" | "static" } IDENT "=" value
//!              | IDENT "=" value
//!              | IDENT "(" arguments
//!              | IDENT
//!              | "return" [ value ]
//!              | "{" block
//!              | "if" value "{" block [ "else" ( "if" ... | "{" block ) ]
//!              | "while" value "{" block
//!              | "for" value "{" block
//! arguments   := ")" | value { "," value } ")"
//! value       := IDENT | NUMBER | STRING | "true" | "false" | "null"
//! ```
//!
//! Every decision rests on the current token and at most the one after it.
//! `var`, `mutable` and `static` are ordinary identifiers that the grammar
//! reads as keywords where a statement starts.
//!
//! What can be emitted:
//!
//! | Code   | Severity | Meaning                                                   |
//! |--------|----------|-----------------------------------------------------------|
//! | `E002` | error    | a token is missing where the tokens end                   |
//! | `E003` | error    | a token of the wrong kind stands where another is needed  |
//! | `E004` | error    | an assignment that the variable's declaration forbids     |
//! | `E005` | error    | a parameter name that another parameter has               |
//! | `PAR1` | warning  | a token that starts no construct of the top level         |

use crate::ast::{may_reassign, type_of, AstNode, AstView, ParamView, Type, ValueView};
use crate::errors::{DiagnosticView, Severity, Span};
use crate::lexer::rules::is_digit;
use crate::lexer::token::{TokenKind, TokenView};
use vstd::prelude::*;
use vstd::utf8::encode_utf8;

verus! {

/// The kind of the token at `pos`, if there is one.
pub open spec fn kind_at(tokens: Seq<TokenView>, pos: int) -> Option<TokenKind> {
    if 0 <= pos < tokens.len() {
        Some(tokens[pos].kind)
    } else {
        None
    }
}

/// How a token is named in a message.
pub open spec fn describe(kind: TokenKind) -> Seq<char> {
    match kind {
        TokenKind::Func => "'func'"@,
        TokenKind::Return => "'return'"@,
        TokenKind::If => "'if'"@,
        TokenKind::Else => "'else'"@,
        TokenKind::For => "'for'"@,
        TokenKind::While => "'while'"@,
        TokenKind::IntLiteral(text) => "number "@ + text,
        TokenKind::BoolLiteral(value) => if value {
            "'true'"@
        } else {
            "'false'"@
        },
        TokenKind::StringLiteral(text) => "string \""@ + text + "\""@,
        TokenKind::NullLiteral => "'null'"@,
        TokenKind::Identifier(name) => "identifier "@ + name,
        TokenKind::Plus => "'+'"@,
        TokenKind::Minus => "'-'"@,
        TokenKind::Mul => "'*'"@,
        TokenKind::Slash => "'/'"@,
        TokenKind::Eq => "'='"@,
        TokenKind::DoubleEq => "'=='"@,
        TokenKind::Not => "'!'"@,
        TokenKind::NotEq => "'!='"@,
        TokenKind::Greater => "'>'"@,
        TokenKind::Less => "'<'"@,
        TokenKind::GreaterEq => "'>='"@,
        TokenKind::LessEq => "'<='"@,
        TokenKind::And => "'&&'"@,
        TokenKind::Or => "'||'"@,
        TokenKind::LParen => "'('"@,
        TokenKind::RParen => "')'"@,
        TokenKind::LBrace => "'{'"@,
        TokenKind::RBrace => "'}'"@,
        TokenKind::LBracket => "'['"@,
        TokenKind::RBracket => "']'"@,
        TokenKind::Semicolon => "';'"@,
        TokenKind::Colon => "':'"@,
        TokenKind::Comma => "','"@,
        TokenKind::Dot => "'.'"@,
        TokenKind::At => "'@'"@,
    }
}

/// The tokens cover ranges of a text of `len` bytes, none of them empty, in
/// source order and without overlap.
pub open spec fn tokens_fit(tokens: Seq<TokenView>, len: nat) -> bool {
    &&& forall|i: int|
        0 <= i < tokens.len() ==> (#[trigger] tokens[i]).span.start < tokens[i].span.end <= len
    &&& forall|i: int, j: int|
        0 <= i < j < tokens.len() ==> (#[trigger] tokens[i]).span.end <= (
        #[trigger] tokens[j]).span.start
}

/// An error without notes.
pub open spec fn error(code: Seq<char>, message: Seq<char>, span: Span) -> DiagnosticView {
    DiagnosticView { severity: Severity::Error, code, message, span, notes: Seq::empty() }
}

/// The error for a token that is not what the grammar asks for at `pos`.
/// Where the tokens have run out it is `E002`, at the last token; where
/// another token stands it is `E003`, at that token, and names it.
pub open spec fn expected(tokens: Seq<TokenView>, pos: int, what: Seq<char>) -> DiagnosticView
    recommends
        tokens.len() > 0,
        0 <= pos,
{
    if pos >= tokens.len() {
        error("E002"@, what, tokens[tokens.len() - 1].span)
    } else {
        error("E003"@, what + ", got "@ + describe(tokens[pos].kind), tokens[pos].span)
    }
}

/// The warning for a token that starts no construct of the top level.
pub open spec fn unrecognized(span: Span) -> DiagnosticView {
    DiagnosticView {
        severity: Severity::Warning,
        code: "PAR1"@,
        message: "unrecognized top-level construct"@,
        span,
        notes: Seq::empty(),
    }
}

/// The error for a parameter whose name another parameter has.
pub open spec fn duplicate_parameter(name: Seq<char>, span: Span) -> DiagnosticView {
    error("E005"@, "Duplicate parameter name "@ + name, span)
}

/// The error for a new value given to a variable that is not mutable.
pub open spec fn immutable_assignment(name: Seq<char>, span: Span) -> DiagnosticView {
    error("E004"@, "Cannot assign twice to immutable variable "@ + name, span)
}

/// The error for a new value whose type is not that of the declared value.
pub open spec fn mismatched_assignment(name: Seq<char>, span: Span) -> DiagnosticView {
    error("E004"@, "Mismatched types in assignment to variable "@ + name, span)
}

/// The span from the start of the token at `first` to the end of the token
/// before `next`: the source extent of what was read from these tokens.
pub open spec fn extent(tokens: Seq<TokenView>, first: int, next: int) -> Span
    recommends
        0 <= first < next <= tokens.len(),
{
    Span { start: tokens[first].span.start, end: tokens[next - 1].span.end }
}

/// The number that decimal digits write.
pub open spec fn decimal(digits: Seq<u8>) -> nat
    decreases digits.len(),
{
    if digits.len() == 0 {
        0
    } else {
        decimal(digits.drop_last()) * 10 + (digits.last() - 0x30) as nat
    }
}

/// The value of a numeric literal: an integer where the text is digits only
/// and the number fits, and else a float, which keeps the text.
pub open spec fn number_value(text: Seq<char>) -> ValueView {
    let digits = encode_utf8(text);
    if (forall|i: int| 0 <= i < digits.len() ==> is_digit(#[trigger] digits[i])) && decimal(digits)
        <= i64::MAX {
        ValueView::IntVal(decimal(digits) as i64)
    } else {
        ValueView::FloatVal(text)
    }
}

/// The value that a token writes, if it writes one.
pub open spec fn token_value(kind: TokenKind) -> Option<ValueView> {
    match kind {
        TokenKind::Identifier(name) => Some(ValueView::IdentVal(name)),
        TokenKind::StringLiteral(text) => Some(ValueView::StringVal(text)),
        TokenKind::IntLiteral(text) => Some(number_value(text)),
        TokenKind::BoolLiteral(value) => Some(ValueView::BoolVal(value)),
        TokenKind::NullLiteral => Some(ValueView::NullVal),
        _ => None,
    }
}

/// The value that the token at `pos` writes, if there is such a token.
pub open spec fn value_at(tokens: Seq<TokenView>, pos: int) -> Option<ValueView> {
    match kind_at(tokens, pos) {
        Some(kind) => token_value(kind),
        None => None,
    }
}

/// The type that a token names, if it names one. A name that is not built
/// in refers to a type declared elsewhere.
pub open spec fn type_named(kind: TokenKind) -> Option<Type> {
    match kind {
        TokenKind::Identifier(name) => Some(
            if name == "string"@ {
                Type::String
            } else if name == "int"@ {
                Type::Int
            } else if name == "float"@ {
                Type::Float
            } else if name == "bool"@ {
                Type::Boolean
            } else if name == "void"@ {
                Type::Void
            } else {
                Type::Reference
            },
        ),
        TokenKind::NullLiteral => Some(Type::Null),
        _ => None,
    }
}

/// One of `params` has the name `name`.
pub open spec fn has_param(params: Seq<ParamView>, name: Seq<char>) -> bool {
    exists|i: int| 0 <= i < params.len() && (#[trigger] params[i]).name == name
}

/// The parameters from `pos` on, where a parameter must stand, after the
/// parameters `done`; with them, the index of the token after the closing
/// parenthesis.
pub open spec fn parameters_from(tokens: Seq<TokenView>, pos: int, done: Seq<ParamView>) -> Result<
    (Seq<ParamView>, int),
    DiagnosticView,
>
    decreases tokens.len() - pos,
{
    if !(kind_at(tokens, pos) matches Some(TokenKind::Identifier(_))) {
        Err(expected(tokens, pos, "Expected parameter name"@))
    } else if kind_at(tokens, pos + 1) != Some(TokenKind::Colon) {
        Err(expected(tokens, pos + 1, "Expected ':' after parameter name"@))
    } else if !(kind_at(tokens, pos + 2) matches Some(kind) && type_named(kind) is Some) {
        Err(expected(tokens, pos + 2, "Expected parameter type"@))
    } else {
        let name = tokens[pos].kind->Identifier_0;
        if has_param(done, name) {
            Err(duplicate_parameter(name, tokens[pos].span))
        } else {
            let params = done.push(
                ParamView { name, param_type: type_named(tokens[pos + 2].kind).unwrap() },
            );
            if kind_at(tokens, pos + 3) == Some(TokenKind::Comma) {
                parameters_from(tokens, pos + 4, params)
            } else if kind_at(tokens, pos + 3) == Some(TokenKind::RParen) {
                Ok((params, pos + 4))
            } else {
                Err(expected(tokens, pos + 3, "Expected ',' or ')' after parameter"@))
            }
        }
    }
}

/// The parameter list whose first token, after the opening parenthesis, is
/// at `pos`; with it, the index of the token after the closing parenthesis.
pub open spec fn parameter_list(tokens: Seq<TokenView>, pos: int) -> Result<
    (Seq<ParamView>, int),
    DiagnosticView,
> {
    if kind_at(tokens, pos) == Some(TokenKind::RParen) {
        Ok((Seq::empty(), pos + 1))
    } else {
        parameters_from(tokens, pos, Seq::empty())
    }
}

/// A variable that a declaration has made visible.
pub struct Binding {
    pub name: Seq<char>,
    pub is_mutable: bool,
    pub declared: Type,
}

/// The declaration of `name` that is visible in `scope`: the latest one.
pub open spec fn lookup(scope: Seq<Binding>, name: Seq<char>) -> Option<Binding>
    decreases scope.len(),
{
    if scope.len() == 0 {
        None
    } else if scope.last().name == name {
        Some(scope.last())
    } else {
        lookup(scope.drop_last(), name)
    }
}

/// What reading one statement gives: its node, the index of the token after
/// it, and the declarations that are visible after it.
pub struct Statement {
    pub node: AstView,
    pub next: int,
    pub scope: Seq<Binding>,
}

/// What the modifiers of a declaration say, and where the name stands.
pub struct Modifiers {
    pub is_mutable: bool,
    pub is_static: bool,
    pub name_at: int,
}

/// The modifiers from `pos` on. An identifier `mutable` or `static` is a
/// modifier where another identifier follows it, and else the name.
pub open spec fn modifiers(tokens: Seq<TokenView>, pos: int, is_mutable: bool, is_static: bool) -> Modifiers
    decreases tokens.len() - pos,
{
    let follows = kind_at(tokens, pos + 1) matches Some(TokenKind::Identifier(_));
    match kind_at(tokens, pos) {
        Some(TokenKind::Identifier(word)) => if follows && word == "mutable"@ {
            modifiers(tokens, pos + 1, true, is_static)
        } else if follows && word == "static"@ {
            modifiers(tokens, pos + 1, is_mutable, true)
        } else {
            Modifiers { is_mutable, is_static, name_at: pos }
        },
        _ => Modifiers { is_mutable, is_static, name_at: pos },
    }
}

/// The declaration whose `var` is at `pos`.
pub open spec fn declaration(tokens: Seq<TokenView>, pos: int, scope: Seq<Binding>) -> Result<
    Statement,
    DiagnosticView,
> {
    let found = modifiers(tokens, pos + 1, false, false);
    let at = found.name_at;
    if !(kind_at(tokens, at) matches Some(TokenKind::Identifier(_))) {
        Err(expected(tokens, at, "Expected variable name"@))
    } else if kind_at(tokens, at + 1) != Some(TokenKind::Eq) {
        Err(expected(tokens, at + 1, "Expected '=' after variable name"@))
    } else if value_at(tokens, at + 2) is None {
        Err(expected(tokens, at + 2, "Expected value"@))
    } else {
        let name = tokens[at].kind->Identifier_0;
        let value = value_at(tokens, at + 2).unwrap();
        Ok(
            Statement {
                node: AstView::VarDeclaration {
                    span: extent(tokens, pos, at + 3),
                    name,
                    is_mutable: found.is_mutable,
                    is_static: found.is_static,
                    value,
                },
                next: at + 3,
                scope: scope.push(
                    Binding { name, is_mutable: found.is_mutable, declared: type_of(value) },
                ),
            },
        )
    }
}

/// The assignment at `pos` gives a value, and either no declaration of the
/// variable is visible, or the visible one is mutable and its value is of
/// the type of the new value.
pub open spec fn accepted_assignment(tokens: Seq<TokenView>, pos: int, scope: Seq<Binding>) -> bool {
    &&& value_at(tokens, pos + 2) matches Some(value)
    &&& lookup(scope, tokens[pos].kind->Identifier_0) matches Some(binding) ==> may_reassign(
        binding.is_mutable,
        binding.declared,
        type_of(value),
    )
}

/// The assignment whose variable name is at `pos`, before a `=`. Where a
/// declaration of the variable is visible, the variable must be mutable and
/// the new value of the declared value's type.
pub open spec fn assignment(tokens: Seq<TokenView>, pos: int, scope: Seq<Binding>) -> Result<
    Statement,
    DiagnosticView,
>
    recommends
        kind_at(tokens, pos) matches Some(TokenKind::Identifier(_)),
        kind_at(tokens, pos + 1) == Some(TokenKind::Eq),
{
    let name = tokens[pos].kind->Identifier_0;
    if value_at(tokens, pos + 2) is None {
        Err(expected(tokens, pos + 2, "Expected value"@))
    } else {
        let value = value_at(tokens, pos + 2).unwrap();
        let span = extent(tokens, pos, pos + 3);
        match lookup(scope, name) {
            Some(binding) => if !binding.is_mutable {
                Err(immutable_assignment(name, span))
            } else if !may_reassign(binding.is_mutable, binding.declared, type_of(value)) {
                Err(mismatched_assignment(name, span))
            } else {
                Ok(Statement { node: AstView::VarAssignment { span, name, new_value: value }, next: pos + 3, scope })
            },
            None => Ok(
                Statement { node: AstView::VarAssignment { span, name, new_value: value }, next: pos + 3, scope },
            ),
        }
    }
}

/// The arguments from `pos` on, where a value must stand, after the
/// arguments `done`; with them, the index of the token after the closing
/// parenthesis.
pub open spec fn arguments_from(tokens: Seq<TokenView>, pos: int, done: Seq<ValueView>) -> Result<
    (Seq<ValueView>, int),
    DiagnosticView,
>
    decreases tokens.len() - pos,
{
    if value_at(tokens, pos) is None {
        Err(expected(tokens, pos, "Expected argument"@))
    } else {
        let values = done.push(value_at(tokens, pos).unwrap());
        if kind_at(tokens, pos + 1) == Some(TokenKind::Comma) {
            arguments_from(tokens, pos + 2, values)
        } else if kind_at(tokens, pos + 1) == Some(TokenKind::RParen) {
            Ok((values, pos + 2))
        } else {
            Err(expected(tokens, pos + 1, "Expected ',' or ')' after argument"@))
        }
    }
}

/// The call whose function name is at `pos`, before a `(`.
pub open spec fn call(tokens: Seq<TokenView>, pos: int, scope: Seq<Binding>) -> Result<
    Statement,
    DiagnosticView,
>
    recommends
        kind_at(tokens, pos) matches Some(TokenKind::Identifier(_)),
        kind_at(tokens, pos + 1) == Some(TokenKind::LParen),
{
    let name = tokens[pos].kind->Identifier_0;
    let arguments = if kind_at(tokens, pos + 2) == Some(TokenKind::RParen) {
        Ok((Seq::empty(), pos + 3))
    } else {
        arguments_from(tokens, pos + 2, Seq::empty())
    };
    match arguments {
        Err(diagnostic) => Err(diagnostic),
        Ok((param_list, next)) => Ok(
            Statement {
                node: AstView::FunctionCall { span: extent(tokens, pos, next), name, param_list },
                next,
                scope,
            },
        ),
    }
}

/// The return statement whose `return` is at `pos`. A value that follows
/// the keyword belongs to it.
pub open spec fn return_statement(tokens: Seq<TokenView>, pos: int, scope: Seq<Binding>) -> Statement {
    match value_at(tokens, pos + 1) {
        Some(value) => Statement {
            node: AstView::Return { span: extent(tokens, pos, pos + 2), value: Some(value) },
            next: pos + 2,
            scope,
        },
        None => Statement {
            node: AstView::Return { span: extent(tokens, pos, pos + 1), value: None },
            next: pos + 1,
            scope,
        },
    }
}

/// The span of a block: from its first node to its last one, and for an
/// empty block, from the one delimiter to the other.
pub open spec fn block_span(open: Span, close: Span, body: Seq<AstView>) -> Span {
    if body.len() == 0 {
        Span { start: open.start, end: close.end }
    } else {
        Span {
            start: match AstNode::spec_span(body.first()) {
                Some(span) => span.start,
                None => open.start,
            },
            end: match AstNode::spec_span(body.last()) {
                Some(span) => span.end,
                None => close.end,
            },
        }
    }
}

/// The statement that starts at `pos`.
pub open spec fn statement(tokens: Seq<TokenView>, pos: int, scope: Seq<Binding>) -> Result<
    Statement,
    DiagnosticView,
>
    recommends
        0 <= pos < tokens.len(),
    decreases tokens.len() - pos, 1int,
{
    if pos < 0 || pos >= tokens.len() {
        Err(expected(tokens, pos, "Expected statement"@))
    } else {
        match tokens[pos].kind {
            TokenKind::Identifier(name) => if name == "var"@ {
                declaration(tokens, pos, scope)
            } else if kind_at(tokens, pos + 1) == Some(TokenKind::Eq) {
                assignment(tokens, pos, scope)
            } else if kind_at(tokens, pos + 1) == Some(TokenKind::LParen) {
                call(tokens, pos, scope)
            } else {
                Ok(
                    Statement {
                        node: AstView::Identifier { span: tokens[pos].span, name },
                        next: pos + 1,
                        scope,
                    },
                )
            },
            TokenKind::Return => Ok(return_statement(tokens, pos, scope)),
            TokenKind::LBrace => match braced_block(tokens, pos, scope) {
                Err(diagnostic) => Err(diagnostic),
                Ok((node, next)) => Ok(Statement { node, next, scope }),
            },
            TokenKind::If => conditional(tokens, pos, scope),
            TokenKind::While => if value_at(tokens, pos + 1) is None {
                Err(expected(tokens, pos + 1, "Expected condition after 'while'"@))
            } else if kind_at(tokens, pos + 2) != Some(TokenKind::LBrace) {
                Err(expected(tokens, pos + 2, "Expected '{' after condition"@))
            } else {
                match braced_block(tokens, pos + 2, scope) {
                    Err(diagnostic) => Err(diagnostic),
                    Ok((body, next)) => Ok(
                        Statement {
                            node: AstView::WhileLoop {
                                span: extent(tokens, pos, next),
                                condition: value_at(tokens, pos + 1).unwrap(),
                                body: Box::new(body),
                            },
                            next,
                            scope,
                        },
                    ),
                }
            },
            TokenKind::For => if value_at(tokens, pos + 1) is None {
                Err(expected(tokens, pos + 1, "Expected items after 'for'"@))
            } else if kind_at(tokens, pos + 2) != Some(TokenKind::LBrace) {
                Err(expected(tokens, pos + 2, "Expected '{' after items"@))
            } else {
                match braced_block(tokens, pos + 2, scope) {
                    Err(diagnostic) => Err(diagnostic),
                    Ok((body, next)) => Ok(
                        Statement {
                            node: AstView::ForLoop {
                                span: extent(tokens, pos, next),
                                items: value_at(tokens, pos + 1).unwrap(),
                                body: Box::new(body),
                            },
                            next,
                            scope,
                        },
                    ),
                }
            },
            _ => Err(expected(tokens, pos, "Expected statement"@)),
        }
    }
}

/// The conditional whose `if` is at `pos`.
pub open spec fn conditional(tokens: Seq<TokenView>, pos: int, scope: Seq<Binding>) -> Result<
    Statement,
    DiagnosticView,
>
    decreases tokens.len() - pos, 0int,
{
    if value_at(tokens, pos + 1) is None {
        Err(expected(tokens, pos + 1, "Expected condition after 'if'"@))
    } else if kind_at(tokens, pos + 2) != Some(TokenKind::LBrace) {
        Err(expected(tokens, pos + 2, "Expected '{' after condition"@))
    } else {
        let condition = value_at(tokens, pos + 1).unwrap();
        match braced_block(tokens, pos + 2, scope) {
            Err(diagnostic) => Err(diagnostic),
            Ok((body, after)) => if !(pos + 2 < after <= tokens.len()) {
                // Never so: a block ends after its opening brace and inside
                // the tokens (see `lemma_block_extent`).
                Err(expected(tokens, after, "Expected statement"@))
            } else if kind_at(tokens, after) != Some(TokenKind::Else) {
                Ok(
                    Statement {
                        node: AstView::Conditional {
                            span: extent(tokens, pos, after),
                            condition,
                            body: Box::new(body),
                            otherwise: Box::new(AstView::Empty),
                        },
                        next: after,
                        scope,
                    },
                )
            } else {
                match otherwise(tokens, after, scope) {
                    Err(diagnostic) => Err(diagnostic),
                    Ok((branch, next)) => Ok(
                        Statement {
                            node: AstView::Conditional {
                                span: extent(tokens, pos, next),
                                condition,
                                body: Box::new(body),
                                otherwise: Box::new(branch),
                            },
                            next,
                            scope,
                        },
                    ),
                }
            },
        }
    }
}

/// What follows the `else` at `pos`: another conditional or a block; with
/// it, the index of the token after it.
pub open spec fn otherwise(tokens: Seq<TokenView>, pos: int, scope: Seq<Binding>) -> Result<
    (AstView, int),
    DiagnosticView,
>
    decreases tokens.len() - pos, 1int,
{
    if kind_at(tokens, pos + 1) == Some(TokenKind::If) {
        match conditional(tokens, pos + 1, scope) {
            Err(diagnostic) => Err(diagnostic),
            Ok(nested) => Ok((nested.node, nested.next)),
        }
    } else if kind_at(tokens, pos + 1) == Some(TokenKind::LBrace) {
        braced_block(tokens, pos + 1, scope)
    } else {
        Err(expected(tokens, pos + 1, "Expected '{' or 'if' after 'else'"@))
    }
}

/// The block whose opening brace is at `pos`, as a node, and the index of
/// the token after its closing brace. What the block declares is visible
/// inside it only.
pub open spec fn braced_block(tokens: Seq<TokenView>, pos: int, scope: Seq<Binding>) -> Result<
    (AstView, int),
    DiagnosticView,
>
    decreases tokens.len() - pos, 0int,
{
    if pos < 0 || pos >= tokens.len() {
        Err(expected(tokens, pos, "Expected '{'"@))
    } else {
        match block_items(tokens, pos + 1, scope, Seq::empty()) {
            Err(diagnostic) => Err(diagnostic),
            Ok((body, next)) => Ok(
                (
                    AstView::Block {
                        span: block_span(tokens[pos].span, tokens[next - 1].span, body),
                        body,
                    },
                    next,
                ),
            ),
        }
    }
}

/// The statements from `pos` up to the closing brace, after the statements
/// `done`; with them, the index of the token after the closing brace. A
/// semicolon between statements says nothing.
pub open spec fn block_items(tokens: Seq<TokenView>, pos: int, scope: Seq<Binding>, done: Seq<AstView>) -> Result<
    (Seq<AstView>, int),
    DiagnosticView,
>
    decreases tokens.len() - pos, 2int,
{
    if pos < 0 || pos >= tokens.len() {
        Err(expected(tokens, pos, "Expected '}' to close the block"@))
    } else if tokens[pos].kind == TokenKind::RBrace {
        Ok((done, pos + 1))
    } else if tokens[pos].kind == TokenKind::Semicolon {
        block_items(tokens, pos + 1, scope, done)
    } else {
        match statement(tokens, pos, scope) {
            Err(diagnostic) => Err(diagnostic),
            Ok(read) => if pos < read.next <= tokens.len() {
                block_items(tokens, read.next, read.scope, done.push(read.node))
            } else {
                // Never so: a statement ends after its first token and inside
                // the tokens (see `lemma_statement_extent`).
                Err(expected(tokens, read.next, "Expected statement"@))
            },
        }
    }
}

/// The function declaration whose `func` is at `pos`, as a node, and the
/// index of the token after its body.
#[verifier::opaque]
pub open spec fn function_declaration(tokens: Seq<TokenView>, pos: int) -> Result<
    (AstView, int),
    DiagnosticView,
>
    recommends
        kind_at(tokens, pos) == Some(TokenKind::Func),
{
    if !(kind_at(tokens, pos + 1) matches Some(TokenKind::Identifier(_))) {
        Err(expected(tokens, pos + 1, "Expected identifier for function declaration"@))
    } else if kind_at(tokens, pos + 2) != Some(TokenKind::LParen) {
        Err(expected(tokens, pos + 2, "Expected parenthesis after function identifier"@))
    } else {
        match parameter_list(tokens, pos + 3) {
            Err(diagnostic) => Err(diagnostic),
            Ok((params, brace_at)) => if kind_at(tokens, brace_at) != Some(TokenKind::LBrace) {
                Err(expected(tokens, brace_at, "Expected brace after function parameters"@))
            } else {
                match braced_block(tokens, brace_at, Seq::empty()) {
                    Err(diagnostic) => Err(diagnostic),
                    Ok((body, next)) => Ok(
                        (
                            AstView::FuncDeclaration {
                                span: extent(tokens, pos + 1, next),
                                name: tokens[pos + 1].kind->Identifier_0,
                                params,
                                returns: Type::Void,
                                body: Box::new(body),
                            },
                            next,
                        ),
                    ),
                }
            },
        }
    }
}

/// What reading the top level gives: the declarations, what was emitted on
/// the way in the order of emission, and whether an error stopped it.
pub struct TopLevel {
    pub declarations: Seq<AstView>,
    pub emitted: Seq<DiagnosticView>,
    pub failed: bool,
}

/// The top level from `pos` on. `func` starts a function declaration; any
/// other token is warned about and passed over. The first error stops
/// everything.
pub open spec fn top_level(tokens: Seq<TokenView>, pos: int) -> TopLevel
    decreases tokens.len() - pos,
{
    if pos < 0 || pos >= tokens.len() {
        TopLevel { declarations: Seq::empty(), emitted: Seq::empty(), failed: false }
    } else if tokens[pos].kind == TokenKind::Func {
        match function_declaration(tokens, pos) {
            Err(diagnostic) => TopLevel {
                declarations: Seq::empty(),
                emitted: seq![diagnostic],
                failed: true,
            },
            Ok((node, next)) => if pos < next <= tokens.len() {
                let rest = top_level(tokens, next);
                TopLevel {
                    declarations: seq![node] + rest.declarations,
                    emitted: rest.emitted,
                    failed: rest.failed,
                }
            } else {
                // Never so: a declaration ends after its first token and
                // inside the tokens (see `lemma_function_extent`).
                TopLevel { declarations: seq![node], emitted: Seq::empty(), failed: false }
            },
        }
    } else {
        let rest = top_level(tokens, pos + 1);
        TopLevel {
            declarations: rest.declarations,
            emitted: seq![unrecognized(tokens[pos].span)] + rest.emitted,
            failed: rest.failed,
        }
    }
}

/// The span of a document: that of the block between its first token and
/// its last one; without a token, the empty span at the start of the text.
pub open spec fn document_span(tokens: Seq<TokenView>, declarations: Seq<AstView>) -> Span {
    if tokens.len() > 0 {
        block_span(tokens.first().span, tokens.last().span, declarations)
    } else {
        Span { start: 0, end: 0 }
    }
}

/// What parsing gives: everything that was emitted, in the order of
/// emission, and either the document or the errors that stand in its way.
pub struct ParseOutput {
    pub emitted: Seq<DiagnosticView>,
    pub result: Result<AstView, Seq<DiagnosticView>>,
}

/// What parsing the tokens of the source unit called `file_name` gives.
/// There is a document if and only if no error was emitted; warnings do not
/// stand in its way.
pub open spec fn parse_tokens(file_name: Seq<char>, tokens: Seq<TokenView>) -> ParseOutput {
    let top = top_level(tokens, 0);
    if top.failed {
        ParseOutput { emitted: top.emitted, result: Err(seq![top.emitted.last()]) }
    } else {
        let span = document_span(tokens, top.declarations);
        ParseOutput {
            emitted: top.emitted,
            result: Ok(
                AstView::Document {
                    span,
                    file_name,
                    body: Box::new(AstView::Block { span, body: top.declarations }),
                },
            ),
        }
    }
}

} // verus!
