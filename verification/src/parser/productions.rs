//! The productions of the grammar, one function each.
//!
//! Each function says where the cursor stands when it is called. A
//! production that the function declaration hands over to starts after the
//! delimiter that the declaration has matched: `eval_fn_params` after the
//! `(`, `eval_fn_body` after the `{`. A production that a statement starts
//! with stands on its first token.

use crate::ast::{
    distinct_names, lemma_block_view, node_views, param_views, value_views, AstNode, AstView, Param, ParamView, Type,
    TypedValue, ValueView,
};
use crate::errors::{
    diagnostic_views, merge_span, text_views, Diagnostic, DiagnosticView, Reporting, Span,
};
use crate::lexer::token::{same_kind, token_views, Token, TokenKind, TokenType, TokenView};
use crate::parser::cursor::Cursor;
use crate::parser::grammar::{
    accepted_assignment, arguments_from, assignment, block_items, block_span, braced_block, call, conditional,
    declaration, document_span, error, expected, function_declaration, has_param, kind_at, lookup,
    modifiers, otherwise, parameter_list, parameters_from, return_statement, statement, tokens_fit,
    top_level, unrecognized, value_at, Binding, Modifiers, Statement,
};
use crate::parser::laws::lemma_parameter_list_distinct;
use crate::parser::reading::{describe_token, join, same_text, type_of_name, value_of};
use vstd::prelude::*;
use vstd::string::*;

verus! {

/// A variable that a declaration has made visible.
pub struct Declared {
    pub name: String,
    pub is_mutable: bool,
    pub declared: Type,
}

impl View for Declared {
    type V = Binding;

    open spec fn view(&self) -> Binding {
        Binding { name: self.name@, is_mutable: self.is_mutable, declared: self.declared }
    }
}

/// What a list of declared variables holds, in order.
pub open spec fn bindings(scope: Seq<Declared>) -> Seq<Binding> {
    scope.map_values(|declared: Declared| declared@)
}

/// The tokens of `cursor` are those of the text that `reporter` reports on.
pub open spec fn reads_source(cursor: Cursor, reporter: Reporting) -> bool {
    &&& cursor.tokens().len() > 0
    &&& 0 <= cursor.position() <= cursor.tokens().len()
    &&& tokens_fit(token_views(cursor.tokens()), reporter.source_bytes().len())
}

/// An error about `span`, without notes.
pub fn error_at(reporter: &Reporting, code: &str, message: String, span: Span) -> (diagnostic: Diagnostic)
    requires
        reporter.covers(span),
    ensures
        diagnostic@ == error(code@, message@, span),
{
    let notes: Vec<String> = Vec::new();
    assert(text_views(notes@) =~= Seq::<Seq<char>>::empty());
    reporter.emit_error(message, span, notes, code.to_owned())
}

/// The error for the current token of `cursor`, which is not what the
/// grammar asks for: `what` says what it asks for.
pub fn unexpected(reporter: &Reporting, cursor: &Cursor, what: &str) -> (diagnostic: Diagnostic)
    requires
        reads_source(*cursor, *reporter),
    ensures
        diagnostic@ == expected(token_views(cursor.tokens()), cursor.position(), what@),
{
    let ghost tokens = token_views(cursor.tokens());
    match cursor.peek() {
        Some(token) => {
            assert(tokens[cursor.position()] == token@);
            let message = join(what, ", got ").concat(describe_token(&token.token_type).as_str());
            error_at(reporter, "E003", message, token.span)
        },
        None => {
            let token = cursor.last().unwrap();
            assert(tokens[tokens.len() - 1] == token@);
            error_at(reporter, "E002", what.to_owned(), token.span)
        },
    }
}

/// Moves past the current token and hands out its span.
pub fn take_span(cursor: &mut Cursor) -> (span: Span)
    requires
        0 <= old(cursor).position() < old(cursor).tokens().len(),
    ensures
        final(cursor).tokens() == old(cursor).tokens(),
        final(cursor).position() == old(cursor).position() + 1,
        span == token_views(old(cursor).tokens())[old(cursor).position()].span,
{
    cursor.advance().unwrap().span
}

/// The span of the token before the current one.
pub fn previous_span(cursor: &Cursor) -> (span: Span)
    requires
        0 < cursor.position(),
    ensures
        cursor.position() <= cursor.tokens().len(),
        span == token_views(cursor.tokens())[cursor.position() - 1].span,
{
    cursor.previous().unwrap().span
}

/// Moves past the current token if it writes a value, and hands the value
/// out.
pub fn read_value(cursor: &mut Cursor) -> (value: Option<TypedValue>)
    ensures
        final(cursor).tokens() == old(cursor).tokens(),
        0 <= old(cursor).position() <= old(cursor).tokens().len(),
        match value {
            Some(value) => {
                &&& value_at(token_views(old(cursor).tokens()), old(cursor).position()) == Some(value@)
                &&& final(cursor).position() == old(cursor).position() + 1
                &&& old(cursor).position() < old(cursor).tokens().len()
            },
            None => {
                &&& value_at(token_views(old(cursor).tokens()), old(cursor).position()) is None
                &&& final(cursor).position() == old(cursor).position()
            },
        },
{
    match cursor.peek() {
        Some(token) => {
            assert(token_views(cursor.tokens())[cursor.position()] == token@);
            match value_of(&token.token_type) {
                Some(value) => {
                    cursor.advance();
                    Some(value)
                },
                None => None,
            }
        },
        None => None,
    }
}

/// The name of the current token, if it is an identifier.
pub fn peek_name<'t>(cursor: &Cursor<'t>) -> (name: Option<&'t String>)
    ensures
        0 <= cursor.position() <= cursor.tokens().len(),
        match name {
            Some(name) => kind_at(token_views(cursor.tokens()), cursor.position()) == Some(
                TokenKind::Identifier(name@),
            ),
            None => !(kind_at(token_views(cursor.tokens()), cursor.position()) matches Some(
                TokenKind::Identifier(_),
            )),
        },
{
    match cursor.peek() {
        Some(token) => {
            assert(token_views(cursor.tokens())[cursor.position()] == token@);
            match &token.token_type {
                TokenType::Identifier(name) => Some(name),
                _ => None,
            }
        },
        None => None,
    }
}

/// The current token is of the kind of `wanted`.
pub fn at_kind(cursor: &Cursor, wanted: &TokenType) -> (yes: bool)
    ensures
        0 <= cursor.position() <= cursor.tokens().len(),
        yes == (kind_at(token_views(cursor.tokens()), cursor.position()) matches Some(kind)
            && same_kind(kind, wanted@)),
{
    match cursor.peek() {
        Some(token) => {
            assert(token_views(cursor.tokens())[cursor.position()] == token@);
            token.token_type.same_kind(wanted)
        },
        None => false,
    }
}

/// The token after the current one is of the kind of `wanted`.
pub fn next_is_kind(cursor: &Cursor, wanted: &TokenType) -> (yes: bool)
    ensures
        0 <= cursor.position() <= cursor.tokens().len(),
        yes == (kind_at(token_views(cursor.tokens()), cursor.position() + 1) matches Some(kind)
            && same_kind(kind, wanted@)),
{
    match cursor.peek_next() {
        Some(token) => {
            assert(token_views(cursor.tokens())[cursor.position() + 1] == token@);
            token.token_type.same_kind(wanted)
        },
        None => false,
    }
}

/// The declaration of `name` that is visible in `scope`: whether the
/// variable is mutable, and the type of its declared value.
pub fn find_declared(scope: &Vec<Declared>, name: &str) -> (found: Option<(bool, Type)>)
    ensures
        match lookup(bindings(scope@), name@) {
            Some(binding) => found == Some((binding.is_mutable, binding.declared)),
            None => found is None,
        },
{
    let ghost all = bindings(scope@);
    let mut i: usize = scope.len();
    assert(all.subrange(0, i as int) =~= all);
    while i > 0
        invariant
            i <= scope.len(),
            all == bindings(scope@),
            lookup(all, name@) == lookup(all.subrange(0, i as int), name@),
        decreases i,
    {
        let ghost front = all.subrange(0, i as int);
        assert(front.drop_last() =~= all.subrange(0, i - 1));
        assert(front.last() == scope@[i - 1]@);
        i = i - 1;
        if same_text(scope[i].name.as_str(), name) {
            return Some((scope[i].is_mutable, scope[i].declared));
        }
    }
    None
}

/// One of `params` has the name `name`.
pub fn has_name(params: &Vec<Param>, name: &str) -> (found: bool)
    ensures
        found == has_param(param_views(params@), name@),
{
    let ghost all = param_views(params@);
    let mut i: usize = 0;
    while i < params.len()
        invariant
            i <= params.len(),
            all == param_views(params@),
            forall|k: int| 0 <= k < i ==> (#[trigger] all[k]).name != name@,
        decreases params.len() - i,
    {
        if same_text(params[i].name.as_str(), name) {
            assert(all[i as int].name == name@);
            return true;
        }
        i = i + 1;
    }
    false
}

/// The parameter list whose first token, after the opening parenthesis, is
/// the current one; with it, the closing parenthesis. The cursor ends up
/// after the closing parenthesis.
#[verifier::loop_isolation(false)]
pub fn eval_fn_params(reporter: &Reporting, cursor: &mut Cursor) -> (read: Result<
    (Vec<Param>, Token),
    Diagnostic,
>)
    requires
        reads_source(*old(cursor), *reporter),
    ensures
        final(cursor).tokens() == old(cursor).tokens(),
        match parameter_list(token_views(old(cursor).tokens()), old(cursor).position()) {
            Ok((params, next)) => {
                &&& read matches Ok((list, close))
                &&& param_views(list@) == params
                &&& close@ == token_views(old(cursor).tokens())[next - 1]
                &&& final(cursor).position() == next
                &&& old(cursor).position() < next <= old(cursor).tokens().len()
            },
            Err(diagnostic) => read matches Err(error) && error@ == diagnostic,
        },
        read matches Ok((_, close)) ==> close@.kind == TokenKind::RParen,
        read matches Ok((list, _)) ==> distinct_names(param_views(list@)),
{
    let ghost tokens = token_views(cursor.tokens());
    let ghost start = cursor.position();
    proof {
        lemma_parameter_list_distinct(tokens, start);
    }
    let mut params: Vec<Param> = Vec::new();
    assert(param_views(params@) =~= Seq::<ParamView>::empty());
    match cursor.expect(&TokenType::RParen) {
        Some(close) => {
            assert(tokens[start] == close@);
            return Ok((params, close.clone()));
        },
        None => {},
    }
    loop
        invariant
            cursor.tokens() == old(cursor).tokens(),
            tokens == token_views(cursor.tokens()),
            reads_source(*cursor, *reporter),
            start <= cursor.position() <= tokens.len(),
            parameter_list(tokens, start) == parameters_from(
                tokens,
                cursor.position(),
                param_views(params@),
            ),
        decreases tokens.len() - cursor.position(),
    {
        let ghost pos = cursor.position();
        let ghost done = param_views(params@);
        let name = match peek_name(cursor) {
            Some(name) => name,
            None => {
                return Err(unexpected(reporter, cursor, "Expected parameter name"));
            },
        };
        let name_span = take_span(cursor);
        match cursor.expect(&TokenType::Colon) {
            Some(colon) => {
                assert(tokens[pos + 1] == colon@);
            },
            None => {
                return Err(unexpected(reporter, cursor, "Expected ':' after parameter name"));
            },
        }
        let named = match cursor.peek() {
            Some(token) => {
                assert(tokens[pos + 2] == token@);
                type_of_name(&token.token_type)
            },
            None => None,
        };
        let param_type = match named {
            Some(param_type) => param_type,
            None => {
                return Err(unexpected(reporter, cursor, "Expected parameter type"));
            },
        };
        cursor.advance();
        if has_name(&params, name.as_str()) {
            return Err(
                error_at(
                    reporter,
                    "E005",
                    join("Duplicate parameter name ", name.as_str()),
                    name_span,
                ),
            );
        }
        let param = Param { name: name.clone(), param_type };
        assert(param_views(params@.push(param)) =~= done.push(param@));
        params.push(param);
        match cursor.expect(&TokenType::Comma) {
            Some(comma) => {
                assert(tokens[pos + 3] == comma@);
            },
            None => {
                match cursor.expect(&TokenType::RParen) {
                    Some(close) => {
                        assert(tokens[pos + 3] == close@);
                        return Ok((params, close.clone()));
                    },
                    None => {
                        return Err(
                            unexpected(reporter, cursor, "Expected ',' or ')' after parameter"),
                        );
                    },
                }
            },
        }
    }
}

/// What was read is what the grammar asks for: the same node with the
/// cursor at the token after it and the same declarations visible, or the
/// same error.
pub open spec fn statement_read(
    read: Result<AstNode, Diagnostic>,
    after: int,
    scope: Seq<Binding>,
    wants: Result<Statement, DiagnosticView>,
) -> bool {
    match wants {
        Ok(statement) => {
            &&& read matches Ok(node)
            &&& node@ == statement.node
            &&& after == statement.next
            &&& scope == statement.scope
        },
        Err(diagnostic) => read matches Err(error) && error@ == diagnostic,
    }
}

/// `after` holds everything that `before` holds, in front.
pub open spec fn extends(after: Seq<Declared>, before: Seq<Declared>) -> bool {
    &&& before.len() <= after.len()
    &&& forall|i: int| 0 <= i < before.len() ==> after[i] == before[i]
}

/// The declaration whose `var` is the current token.
#[verifier::loop_isolation(false)]
pub fn read_declaration(reporter: &Reporting, cursor: &mut Cursor, scope: &mut Vec<Declared>) -> (read:
    Result<AstNode, Diagnostic>)
    requires
        reads_source(*old(cursor), *reporter),
        old(cursor).position() < old(cursor).tokens().len(),
    ensures
        final(cursor).tokens() == old(cursor).tokens(),
        statement_read(
            read,
            final(cursor).position(),
            bindings(final(scope)@),
            declaration(
                token_views(old(cursor).tokens()),
                old(cursor).position(),
                bindings(old(scope)@),
            ),
        ),
        read is Ok ==> old(cursor).position() < final(cursor).position() <= old(cursor).tokens().len(),
        extends(final(scope)@, old(scope)@),
{
    let ghost tokens = token_views(cursor.tokens());
    let ghost start = cursor.position();
    let first_span = take_span(cursor);
    let mut is_mutable = false;
    let mut is_static = false;
    let mut more = true;
    while more
        invariant
            cursor.tokens() == old(cursor).tokens(),
            tokens == token_views(cursor.tokens()),
            start < cursor.position() <= tokens.len(),
            modifiers(tokens, start + 1, false, false) == modifiers(
                tokens,
                cursor.position(),
                is_mutable,
                is_static,
            ),
            !more ==> modifiers(tokens, cursor.position(), is_mutable, is_static) == (Modifiers {
                is_mutable,
                is_static,
                name_at: cursor.position(),
            }),
        decreases tokens.len() - cursor.position() + (if more { 1int } else { 0int }),
    {
        let follows = next_is_kind(cursor, &TokenType::Identifier(String::new()));
        let word = peek_name(cursor);
        match word {
            Some(word) => {
                if follows && same_text(word.as_str(), "mutable") {
                    is_mutable = true;
                    cursor.advance();
                } else if follows && same_text(word.as_str(), "static") {
                    is_static = true;
                    cursor.advance();
                } else {
                    more = false;
                }
            },
            None => {
                more = false;
            },
        }
    }
    let ghost at = cursor.position();
    let name = match peek_name(cursor) {
        Some(name) => name,
        None => {
            return Err(unexpected(reporter, cursor, "Expected variable name"));
        },
    };
    cursor.advance();
    match cursor.expect(&TokenType::Eq) {
        Some(equals) => {
            assert(tokens[at + 1] == equals@);
        },
        None => {
            return Err(unexpected(reporter, cursor, "Expected '=' after variable name"));
        },
    }
    let value = match read_value(cursor) {
        Some(value) => value,
        None => {
            return Err(unexpected(reporter, cursor, "Expected value"));
        },
    };
    let last_span = previous_span(cursor);
    let span = merge_span(&first_span, &last_span);
    let declared = Declared { name: name.clone(), is_mutable, declared: value.value_type() };
    assert(bindings(scope@.push(declared)) =~= bindings(scope@).push(declared@));
    scope.push(declared);
    Ok(AstNode::VarDeclaration { span, name: name.clone(), is_mutable, is_static, value })
}

/// The assignment whose variable name is the current token; the token
/// after it is a `=`.
pub fn read_assignment(reporter: &Reporting, cursor: &mut Cursor, scope: &Vec<Declared>) -> (read: Result<
    AstNode,
    Diagnostic,
>)
    requires
        reads_source(*old(cursor), *reporter),
        kind_at(token_views(old(cursor).tokens()), old(cursor).position()) matches Some(
            TokenKind::Identifier(_),
        ),
        kind_at(token_views(old(cursor).tokens()), old(cursor).position() + 1) == Some(
            TokenKind::Eq,
        ),
    ensures
        final(cursor).tokens() == old(cursor).tokens(),
        statement_read(
            read,
            final(cursor).position(),
            bindings(scope@),
            assignment(token_views(old(cursor).tokens()), old(cursor).position(), bindings(scope@)),
        ),
        read is Ok ==> old(cursor).position() < final(cursor).position() <= old(cursor).tokens().len(),
        read is Ok <==> accepted_assignment(
            token_views(old(cursor).tokens()),
            old(cursor).position(),
            bindings(scope@),
        ),
{
    let ghost tokens = token_views(cursor.tokens());
    let ghost start = cursor.position();
    let name = peek_name(cursor).unwrap();
    let first_span = take_span(cursor);
    cursor.advance();
    let value = match read_value(cursor) {
        Some(value) => value,
        None => {
            return Err(unexpected(reporter, cursor, "Expected value"));
        },
    };
    let last_span = previous_span(cursor);
    let span = merge_span(&first_span, &last_span);
    match find_declared(scope, name.as_str()) {
        Some((is_mutable, declared)) => {
            if !is_mutable {
                return Err(
                    error_at(
                        reporter,
                        "E004",
                        join("Cannot assign twice to immutable variable ", name.as_str()),
                        span,
                    ),
                );
            }
            if declared != value.value_type() {
                return Err(
                    error_at(
                        reporter,
                        "E004",
                        join("Mismatched types in assignment to variable ", name.as_str()),
                        span,
                    ),
                );
            }
        },
        None => {},
    }
    Ok(AstNode::VarAssignment { span, name: name.clone(), new_value: value })
}

/// The call whose function name is the current token; the token after it
/// is a `(`.
#[verifier::loop_isolation(false)]
pub fn read_call(reporter: &Reporting, cursor: &mut Cursor, scope: &Vec<Declared>) -> (read: Result<
    AstNode,
    Diagnostic,
>)
    requires
        reads_source(*old(cursor), *reporter),
        kind_at(token_views(old(cursor).tokens()), old(cursor).position()) matches Some(
            TokenKind::Identifier(_),
        ),
        kind_at(token_views(old(cursor).tokens()), old(cursor).position() + 1) == Some(
            TokenKind::LParen,
        ),
    ensures
        final(cursor).tokens() == old(cursor).tokens(),
        statement_read(
            read,
            final(cursor).position(),
            bindings(scope@),
            call(token_views(old(cursor).tokens()), old(cursor).position(), bindings(scope@)),
        ),
        read is Ok ==> old(cursor).position() < final(cursor).position() <= old(cursor).tokens().len(),
{
    let ghost tokens = token_views(cursor.tokens());
    let ghost start = cursor.position();
    let name = peek_name(cursor).unwrap();
    let first_span = take_span(cursor);
    cursor.advance();
    let mut param_list: Vec<TypedValue> = Vec::new();
    assert(value_views(param_list@) =~= Seq::<ValueView>::empty());
    match cursor.expect(&TokenType::RParen) {
        Some(close) => {
            assert(tokens[start + 2] == close@);
            let span = merge_span(&first_span, &close.span);
            return Ok(AstNode::FunctionCall { span, name: name.clone(), param_list });
        },
        None => {},
    }
    let ghost wanted = arguments_from(tokens, start + 2, Seq::empty());
    loop
        invariant
            cursor.tokens() == old(cursor).tokens(),
            tokens == token_views(cursor.tokens()),
            reads_source(*cursor, *reporter),
            start + 2 <= cursor.position() <= tokens.len(),
            tokens[start].span == first_span,
            tokens[start].kind == TokenKind::Identifier(name@),
            wanted == arguments_from(tokens, cursor.position(), value_views(param_list@)),
        decreases tokens.len() - cursor.position(),
    {
        let ghost pos = cursor.position();
        let ghost done = value_views(param_list@);
        let value = match read_value(cursor) {
            Some(value) => value,
            None => {
                return Err(unexpected(reporter, cursor, "Expected argument"));
            },
        };
        assert(value_views(param_list@.push(value)) =~= done.push(value@));
        param_list.push(value);
        match cursor.expect(&TokenType::Comma) {
            Some(comma) => {
                assert(tokens[pos + 1] == comma@);
            },
            None => {
                match cursor.expect(&TokenType::RParen) {
                    Some(close) => {
                        assert(tokens[pos + 1] == close@);
                        let span = merge_span(&first_span, &close.span);
                        return Ok(AstNode::FunctionCall { span, name: name.clone(), param_list });
                    },
                    None => {
                        return Err(
                            unexpected(reporter, cursor, "Expected ',' or ')' after argument"),
                        );
                    },
                }
            },
        }
    }
}

/// The return statement whose `return` is the current token.
pub fn read_return(cursor: &mut Cursor, scope: &Vec<Declared>) -> (node: AstNode)
    requires
        0 <= old(cursor).position() < old(cursor).tokens().len(),
        tokens_fit(token_views(old(cursor).tokens()), usize::MAX as nat),
    ensures
        final(cursor).tokens() == old(cursor).tokens(),
        statement_read(
            Ok(node),
            final(cursor).position(),
            bindings(scope@),
            Ok(
                return_statement(
                    token_views(old(cursor).tokens()),
                    old(cursor).position(),
                    bindings(scope@),
                ),
            ),
        ),
        old(cursor).position() < final(cursor).position() <= old(cursor).tokens().len(),
{
    let ghost tokens = token_views(cursor.tokens());
    let ghost start = cursor.position();
    let first_span = take_span(cursor);
    match read_value(cursor) {
        Some(value) => {
            let last_span = previous_span(cursor);
            AstNode::Return { span: merge_span(&first_span, &last_span), value: Some(value) }
        },
        None => AstNode::Return { span: first_span, value: None },
    }
}

/// What was read is the block that the grammar asks for: the same node
/// and its closing brace with the cursor after it, or the same error.
pub open spec fn block_read(
    read: Result<(AstNode, Token), Diagnostic>,
    tokens: Seq<TokenView>,
    after: int,
    wants: Result<(AstView, int), DiagnosticView>,
) -> bool {
    match wants {
        Ok((node, next)) => {
            &&& read matches Ok((block, close))
            &&& block@ == node
            &&& after == next
            &&& 0 < next <= tokens.len()
            &&& close@ == tokens[next - 1]
        },
        Err(diagnostic) => read matches Err(error) && error@ == diagnostic,
    }
}

/// The span of the block between the delimiters `open` and `close` whose
/// nodes are `body`.
pub fn span_of_block(open: Span, close: Span, body: &Vec<AstNode>) -> (span: Span)
    ensures
        span == block_span(open, close, node_views(body@)),
{
    if body.len() == 0 {
        Span { start: open.start, end: close.end }
    } else {
        let start = match body[0].span() {
            Some(span) => span.start,
            None => open.start,
        };
        let end = match body[body.len() - 1].span() {
            Some(span) => span.end,
            None => close.end,
        };
        Span { start, end }
    }
}

/// The block whose opening brace is the current token, and its closing
/// brace. The cursor ends up after the closing brace. What the block
/// declares is visible inside it only.
pub fn read_block(reporter: &Reporting, cursor: &mut Cursor, scope: &mut Vec<Declared>) -> (read: Result<
    (AstNode, Token),
    Diagnostic,
>)
    requires
        reads_source(*old(cursor), *reporter),
        old(cursor).position() < old(cursor).tokens().len(),
    ensures
        final(cursor).tokens() == old(cursor).tokens(),
        block_read(
            read,
            token_views(old(cursor).tokens()),
            final(cursor).position(),
            braced_block(
                token_views(old(cursor).tokens()),
                old(cursor).position(),
                bindings(old(scope)@),
            ),
        ),
        read is Ok ==> old(cursor).position() < final(cursor).position() <= old(cursor).tokens().len(),
        read matches Ok((_, close)) ==> close@.kind == TokenKind::RBrace,
        read is Ok ==> final(scope)@ == old(scope)@,
        extends(final(scope)@, old(scope)@),
    decreases old(cursor).tokens().len() - old(cursor).position(), 0int,
{
    cursor.advance();
    read_block_rest(reporter, cursor, scope)
}

/// The block whose opening brace is the token before the current one, and
/// its closing brace: the statements from the current token up to the
/// closing brace. The cursor ends up after the closing brace. What the
/// block declares is visible inside it only.
#[verifier::loop_isolation(false)]
pub fn read_block_rest(reporter: &Reporting, cursor: &mut Cursor, scope: &mut Vec<Declared>) -> (read:
    Result<(AstNode, Token), Diagnostic>)
    requires
        reads_source(*old(cursor), *reporter),
        0 < old(cursor).position(),
    ensures
        final(cursor).tokens() == old(cursor).tokens(),
        block_read(
            read,
            token_views(old(cursor).tokens()),
            final(cursor).position(),
            braced_block(
                token_views(old(cursor).tokens()),
                old(cursor).position() - 1,
                bindings(old(scope)@),
            ),
        ),
        read is Ok ==> old(cursor).position() < final(cursor).position() <= old(cursor).tokens().len(),
        read matches Ok((_, close)) ==> close@.kind == TokenKind::RBrace,
        read is Ok ==> final(scope)@ == old(scope)@,
        extends(final(scope)@, old(scope)@),
    decreases old(cursor).tokens().len() - old(cursor).position(), 2int,
{
    let ghost tokens = token_views(cursor.tokens());
    let ghost start = cursor.position() - 1;
    let ghost outer = bindings(scope@);
    let open_span = previous_span(cursor);
    let depth = scope.len();
    let mut body: Vec<AstNode> = Vec::new();
    assert(node_views(body@) =~= Seq::<AstView>::empty());
    loop
        invariant
            cursor.tokens() == old(cursor).tokens(),
            reads_source(*cursor, *reporter),
            start < cursor.position() <= tokens.len(),
            extends(scope@, old(scope)@),
            depth == old(scope)@.len(),
            block_items(tokens, start + 1, outer, Seq::empty()) == block_items(
                tokens,
                cursor.position(),
                bindings(scope@),
                node_views(body@),
            ),
        decreases tokens.len() - cursor.position(),
    {
        let ghost pos = cursor.position();
        let ghost done = node_views(body@);
        let token = match cursor.peek() {
            Some(token) => token,
            None => {
                return Err(unexpected(reporter, cursor, "Expected '}' to close the block"));
            },
        };
        assert(tokens[pos] == token@);
        match &token.token_type {
            TokenType::RBrace => {
                cursor.advance();
                let span = span_of_block(open_span, token.span, &body);
                scope.truncate(depth);
                proof {
                    lemma_block_view(span, body);
                    assert(scope@ =~= old(scope)@);
                }
                return Ok((AstNode::Block { span, body }, token.clone()));
            },
            TokenType::Semicolon => {
                cursor.advance();
            },
            _ => {
                match read_statement(reporter, cursor, scope) {
                    Ok(node) => {
                        assert(node_views(body@.push(node)) =~= done.push(node@));
                        body.push(node);
                    },
                    Err(error) => {
                        return Err(error);
                    },
                }
            },
        }
    }
}

/// The statement that starts at the current token. The cursor ends up
/// after the statement.
pub fn read_statement(reporter: &Reporting, cursor: &mut Cursor, scope: &mut Vec<Declared>) -> (read: Result<
    AstNode,
    Diagnostic,
>)
    requires
        reads_source(*old(cursor), *reporter),
        old(cursor).position() < old(cursor).tokens().len(),
    ensures
        final(cursor).tokens() == old(cursor).tokens(),
        statement_read(
            read,
            final(cursor).position(),
            bindings(final(scope)@),
            statement(
                token_views(old(cursor).tokens()),
                old(cursor).position(),
                bindings(old(scope)@),
            ),
        ),
        read is Ok ==> old(cursor).position() < final(cursor).position() <= old(cursor).tokens().len(),
        extends(final(scope)@, old(scope)@),
    decreases old(cursor).tokens().len() - old(cursor).position(), 1int,
{
    let ghost tokens = token_views(cursor.tokens());
    let ghost start = cursor.position();
    let token = match cursor.peek() {
        Some(token) => token,
        None => {
            return Err(unexpected(reporter, cursor, "Expected statement"));
        },
    };
    assert(tokens[start] == token@);
    match &token.token_type {
        TokenType::Identifier(name) => {
            if same_text(name.as_str(), "var") {
                read_declaration(reporter, cursor, scope)
            } else if next_is_kind(cursor, &TokenType::Eq) {
                read_assignment(reporter, cursor, scope)
            } else if next_is_kind(cursor, &TokenType::LParen) {
                read_call(reporter, cursor, scope)
            } else {
                cursor.advance();
                Ok(AstNode::Identifier { span: token.span, name: name.clone() })
            }
        },
        TokenType::Return => Ok(read_return(cursor, scope)),
        TokenType::LBrace => {
            match read_block(reporter, cursor, scope) {
                Ok((node, _)) => Ok(node),
                Err(error) => Err(error),
            }
        },
        TokenType::If => read_conditional(reporter, cursor, scope),
        TokenType::While => {
            cursor.advance();
            let condition = match read_value(cursor) {
                Some(condition) => condition,
                None => {
                    return Err(unexpected(reporter, cursor, "Expected condition after 'while'"));
                },
            };
            if !at_kind(cursor, &TokenType::LBrace) {
                return Err(unexpected(reporter, cursor, "Expected '{' after condition"));
            }
            match read_block(reporter, cursor, scope) {
                Ok((body, close)) => Ok(
                    AstNode::WhileLoop {
                        span: merge_span(&token.span, &close.span),
                        condition,
                        body: Box::new(body),
                    },
                ),
                Err(error) => Err(error),
            }
        },
        TokenType::For => {
            cursor.advance();
            let items = match read_value(cursor) {
                Some(items) => items,
                None => {
                    return Err(unexpected(reporter, cursor, "Expected items after 'for'"));
                },
            };
            if !at_kind(cursor, &TokenType::LBrace) {
                return Err(unexpected(reporter, cursor, "Expected '{' after items"));
            }
            match read_block(reporter, cursor, scope) {
                Ok((body, close)) => Ok(
                    AstNode::ForLoop {
                        span: merge_span(&token.span, &close.span),
                        items,
                        body: Box::new(body),
                    },
                ),
                Err(error) => Err(error),
            }
        },
        _ => Err(unexpected(reporter, cursor, "Expected statement")),
    }
}

/// The conditional whose `if` is the current token. The cursor ends up
/// after its last block.
pub fn read_conditional(reporter: &Reporting, cursor: &mut Cursor, scope: &mut Vec<Declared>) -> (read:
    Result<AstNode, Diagnostic>)
    requires
        reads_source(*old(cursor), *reporter),
        old(cursor).position() < old(cursor).tokens().len(),
    ensures
        final(cursor).tokens() == old(cursor).tokens(),
        statement_read(
            read,
            final(cursor).position(),
            bindings(final(scope)@),
            conditional(
                token_views(old(cursor).tokens()),
                old(cursor).position(),
                bindings(old(scope)@),
            ),
        ),
        read is Ok ==> old(cursor).position() < final(cursor).position() <= old(cursor).tokens().len(),
        read is Ok ==> final(scope)@ == old(scope)@,
        extends(final(scope)@, old(scope)@),
    decreases old(cursor).tokens().len() - old(cursor).position(), 0int,
{
    let ghost tokens = token_views(cursor.tokens());
    let ghost start = cursor.position();
    let first_span = take_span(cursor);
    let condition = match read_value(cursor) {
        Some(condition) => condition,
        None => {
            return Err(unexpected(reporter, cursor, "Expected condition after 'if'"));
        },
    };
    if !at_kind(cursor, &TokenType::LBrace) {
        return Err(unexpected(reporter, cursor, "Expected '{' after condition"));
    }
    let (body, close) = match read_block(reporter, cursor, scope) {
        Ok(read) => read,
        Err(error) => {
            return Err(error);
        },
    };
    if !at_kind(cursor, &TokenType::Else) {
        assert((AstNode::Empty)@ == AstView::Empty);
        return Ok(
            AstNode::Conditional {
                span: merge_span(&first_span, &close.span),
                condition,
                body: Box::new(body),
                otherwise: Box::new(AstNode::Empty),
            },
        );
    }
    let branch = match read_otherwise(reporter, cursor, scope) {
        Ok(branch) => branch,
        Err(error) => {
            return Err(error);
        },
    };
    let last_span = previous_span(cursor);
    Ok(
        AstNode::Conditional {
            span: merge_span(&first_span, &last_span),
            condition,
            body: Box::new(body),
            otherwise: Box::new(branch),
        },
    )
}

/// What follows the `else` that is the current token: another conditional
/// or a block. The cursor ends up after it.
pub fn read_otherwise(reporter: &Reporting, cursor: &mut Cursor, scope: &mut Vec<Declared>) -> (read: Result<
    AstNode,
    Diagnostic,
>)
    requires
        reads_source(*old(cursor), *reporter),
        old(cursor).position() < old(cursor).tokens().len(),
    ensures
        final(cursor).tokens() == old(cursor).tokens(),
        match otherwise(
            token_views(old(cursor).tokens()),
            old(cursor).position(),
            bindings(old(scope)@),
        ) {
            Ok((node, next)) => {
                &&& read matches Ok(branch)
                &&& branch@ == node
                &&& final(cursor).position() == next
                &&& old(cursor).position() < next <= old(cursor).tokens().len()
                &&& final(scope)@ == old(scope)@
            },
            Err(diagnostic) => read matches Err(error) && error@ == diagnostic,
        },
        extends(final(scope)@, old(scope)@),
    decreases old(cursor).tokens().len() - old(cursor).position(), 1int,
{
    cursor.advance();
    if at_kind(cursor, &TokenType::If) {
        read_conditional(reporter, cursor, scope)
    } else if at_kind(cursor, &TokenType::LBrace) {
        match read_block(reporter, cursor, scope) {
            Ok((node, _)) => Ok(node),
            Err(error) => Err(error),
        }
    } else {
        Err(unexpected(reporter, cursor, "Expected '{' or 'if' after 'else'"))
    }
}

/// The body of a function: the statements from the current token, which
/// is the first one after the opening brace, up to the closing brace; with
/// the body, its closing brace. The cursor ends up after the closing brace.
/// No declaration is visible where the body starts.
pub fn eval_fn_body(reporter: &Reporting, cursor: &mut Cursor) -> (read: Result<(AstNode, Token), Diagnostic>)
    requires
        reads_source(*old(cursor), *reporter),
        0 < old(cursor).position(),
    ensures
        final(cursor).tokens() == old(cursor).tokens(),
        block_read(
            read,
            token_views(old(cursor).tokens()),
            final(cursor).position(),
            braced_block(token_views(old(cursor).tokens()), old(cursor).position() - 1, Seq::empty()),
        ),
        read is Ok ==> old(cursor).position() < final(cursor).position() <= old(cursor).tokens().len(),
        read matches Ok((_, close)) ==> close@.kind == TokenKind::RBrace,
{
    let mut scope: Vec<Declared> = Vec::new();
    assert(bindings(scope@) =~= Seq::<Binding>::empty());
    read_block_rest(reporter, cursor, &mut scope)
}

/// The function declaration whose `func` is the current token. The cursor
/// ends up after the function's body.
#[verifier::rlimit(40)]
pub fn read_function(reporter: &Reporting, cursor: &mut Cursor) -> (read: Result<AstNode, Diagnostic>)
    requires
        reads_source(*old(cursor), *reporter),
        old(cursor).position() < old(cursor).tokens().len(),
    ensures
        final(cursor).tokens() == old(cursor).tokens(),
        match function_declaration(token_views(old(cursor).tokens()), old(cursor).position()) {
            Ok((node, next)) => {
                &&& read matches Ok(declaration)
                &&& declaration@ == node
                &&& final(cursor).position() == next
                &&& old(cursor).position() < next <= old(cursor).tokens().len()
            },
            Err(diagnostic) => read matches Err(error) && error@ == diagnostic,
        },
{
    reveal(function_declaration);
    let ghost tokens = token_views(cursor.tokens());
    let ghost start = cursor.position();
    cursor.advance();
    let name = match peek_name(cursor) {
        Some(name) => name,
        None => {
            return Err(unexpected(reporter, cursor, "Expected identifier for function declaration"));
        },
    };
    let name_span = take_span(cursor);
    match cursor.expect(&TokenType::LParen) {
        Some(open) => {
            assert(tokens[start + 2] == open@);
        },
        None => {
            return Err(unexpected(reporter, cursor, "Expected parenthesis after function identifier"));
        },
    }
    let (params, _) = match eval_fn_params(reporter, cursor) {
        Ok(read) => read,
        Err(error) => {
            return Err(error);
        },
    };
    match cursor.expect(&TokenType::LBrace) {
        Some(_) => {},
        None => {
            return Err(unexpected(reporter, cursor, "Expected brace after function parameters"));
        },
    }
    match eval_fn_body(reporter, cursor) {
        Ok((body, close)) => Ok(
            AstNode::FuncDeclaration {
                span: merge_span(&name_span, &close.span),
                name: name.clone(),
                params,
                returns: Type::Void,
                body: Box::new(body),
            },
        ),
        Err(error) => Err(error),
    }
}

/// The warning for `token`, which starts no construct of the top level.
pub fn warn_unrecognized(reporter: &Reporting, token: &Token) -> (warning: Diagnostic)
    requires
        reporter.covers(token.span),
    ensures
        warning@ == unrecognized(token.span),
{
    let notes: Vec<String> = Vec::new();
    assert(text_views(notes@) =~= Seq::<Seq<char>>::empty());
    reporter.emit_warning(
        "unrecognized top-level construct".to_owned(),
        token.span,
        notes,
        "PAR1".to_owned(),
    )
}

/// Reads the top level of `tokens`: the declarations, what was emitted on
/// the way in the order of emission, and whether an error stopped it.
pub fn read_top_level(reporter: &Reporting, tokens: &Vec<Token>) -> (read: (
    Vec<AstNode>,
    Vec<Diagnostic>,
    bool,
))
    requires
        tokens_fit(token_views(tokens@), reporter.source_bytes().len()),
    ensures
        read.2 == top_level(token_views(tokens@), 0).failed,
        diagnostic_views(read.1@) == top_level(token_views(tokens@), 0).emitted,
        !read.2 ==> node_views(read.0@) == top_level(token_views(tokens@), 0).declarations,
        read.2 ==> read.1@.len() > 0,
{
    let ghost views = token_views(tokens@);
    let mut cursor = Cursor::new(tokens);
    let mut declarations: Vec<AstNode> = Vec::new();
    let mut emitted: Vec<Diagnostic> = Vec::new();
    let mut failed = false;
    proof {
        assert(node_views(declarations@) =~= Seq::<AstView>::empty());
        assert(diagnostic_views(emitted@) =~= Seq::<DiagnosticView>::empty());
        assert(Seq::<AstView>::empty() + top_level(views, 0).declarations =~= top_level(
            views,
            0,
        ).declarations);
        assert(Seq::<DiagnosticView>::empty() + top_level(views, 0).emitted =~= top_level(
            views,
            0,
        ).emitted);
    }
    while !failed && cursor.index() < tokens.len()
        invariant
            cursor.tokens() == tokens@,
            views == token_views(tokens@),
            tokens_fit(views, reporter.source_bytes().len()),
            failed ==> top_level(views, 0).failed && top_level(views, 0).emitted
                == diagnostic_views(emitted@) && emitted@.len() > 0,
            !failed ==> ({
                let rest = top_level(views, cursor.position());
                &&& 0 <= cursor.position() <= views.len()
                &&& top_level(views, 0).declarations == node_views(declarations@) + rest.declarations
                &&& top_level(views, 0).emitted == diagnostic_views(emitted@) + rest.emitted
                &&& top_level(views, 0).failed == rest.failed
            }),
        decreases
                if failed {
                    0int
                } else {
                    views.len() - cursor.position() + 1
                },
    {
        let ghost pos = cursor.position();
        let ghost rest = top_level(views, pos);
        let ghost done = node_views(declarations@);
        let ghost said = diagnostic_views(emitted@);
        let token = &tokens[cursor.index()];
        assert(views[pos] == token@);
        match &token.token_type {
            TokenType::Func => {
                match read_function(reporter, &mut cursor) {
                    Ok(node) => {
                        proof {
                            let after = top_level(views, cursor.position());
                            assert(node_views(declarations@.push(node)) =~= done.push(node@));
                            assert(done.push(node@) + after.declarations =~= done + rest.declarations);
                        }
                        declarations.push(node);
                    },
                    Err(error) => {
                        proof {
                            assert(diagnostic_views(emitted@.push(error)) =~= said.push(error@));
                            assert(said.push(error@) =~= said + rest.emitted);
                        }
                        emitted.push(error);
                        failed = true;
                    },
                }
            },
            _ => {
                let warning = warn_unrecognized(reporter, token);
                cursor.advance();
                proof {
                    let after = top_level(views, cursor.position());
                    assert(diagnostic_views(emitted@.push(warning)) =~= said.push(warning@));
                    assert(said.push(warning@) + after.emitted =~= said + rest.emitted);
                }
                emitted.push(warning);
            },
        }
    }
    proof {
        if !failed {
            assert(node_views(declarations@) + Seq::<AstView>::empty() =~= node_views(
                declarations@,
            ));
            assert(diagnostic_views(emitted@) + Seq::<DiagnosticView>::empty() =~= diagnostic_views(
                emitted@,
            ));
        }
    }
    (declarations, emitted, failed)
}

/// The document of the source unit called `file_name` whose tokens are
/// `tokens` and whose declarations are `declarations`.
pub fn build_document(file_name: &str, tokens: &Vec<Token>, declarations: Vec<AstNode>) -> (document:
    AstNode)
    ensures
        document@ == ({
            let span = document_span(token_views(tokens@), node_views(declarations@));
            AstView::Document {
                span,
                file_name: file_name@,
                body: Box::new(AstView::Block { span, body: node_views(declarations@) }),
            }
        }),
{
    let ghost views = token_views(tokens@);
    let span = if tokens.len() > 0 {
        assert(views.first() == tokens@[0]@);
        assert(views.last() == tokens@[tokens@.len() - 1]@);
        span_of_block(tokens[0].span, tokens[tokens.len() - 1].span, &declarations)
    } else {
        Span { start: 0, end: 0 }
    };
    proof {
        lemma_block_view(span, declarations);
    }
    AstNode::Document {
        span,
        file_name: file_name.to_owned(),
        body: Box::new(AstNode::Block { span, body: declarations }),
    }
}

} // verus!
