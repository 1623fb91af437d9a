//! Where the spans of a syntax tree lie.
//!
//! Every node that the grammar reads from tokens carries a span that is a
//! well-formed range of the source text and lies within the extent of the
//! tokens it was read from. On the way it shows that whatever is read ends
//! after its first token and inside the tokens.

use crate::ast::{AstNode, AstView, ParamView, ValueView};
use crate::lexer::laws::{is_token_of, lemma_scan_tokens};
use crate::lexer::lex_result;
use crate::lexer::rules::lex;
use crate::lexer::token::{TokenKind, TokenView};
use crate::parser::grammar::{
    arguments_from, block_items, braced_block, conditional, function_declaration,
    kind_at, modifiers, otherwise, parameter_list, parameters_from, parse_tokens, statement,
    tokens_fit, top_level, type_named, value_at, Binding,
};
use crate::parser::parse_source;
use vstd::prelude::*;

verus! {

/// Every span in the tree is a well-formed range of a text of `len` bytes.
pub open spec fn spans_within(node: AstView, len: nat) -> bool
    decreases node,
{
    match node {
        AstView::Empty => true,
        AstView::Document { span, body, .. } => span.within(len) && spans_within(*body, len),
        AstView::Block { span, body } => span.within(len) && forall|i: int|
            0 <= i < body.len() ==> spans_within(#[trigger] body[i], len),
        AstView::Identifier { span, .. } => span.within(len),
        AstView::FunctionCall { span, .. } => span.within(len),
        AstView::FuncDeclaration { span, body, .. } => span.within(len) && spans_within(*body, len),
        AstView::VarDeclaration { span, .. } => span.within(len),
        AstView::VarAssignment { span, .. } => span.within(len),
        AstView::Return { span, .. } => span.within(len),
        AstView::Conditional { span, body, otherwise, .. } => span.within(len) && spans_within(
            *body,
            len,
        ) && spans_within(*otherwise, len),
        AstView::WhileLoop { span, body, .. } => span.within(len) && spans_within(*body, len),
        AstView::ForLoop { span, body, .. } => span.within(len) && spans_within(*body, len),
    }
}

/// `node` was read from the tokens from `first` up to `next`: it carries a
/// span, which lies within the extent of these tokens, and every span in it
/// is a well-formed range of a text of `len` bytes.
pub open spec fn read_from(node: AstView, tokens: Seq<TokenView>, first: int, next: int, len: nat) -> bool {
    &&& 0 <= first < next <= tokens.len()
    &&& spans_within(node, len)
    &&& match AstNode::spec_span(node) {
        Some(span) => tokens[first].span.start <= span.start <= span.end <= tokens[next
            - 1].span.end,
        None => false,
    }
}

/// The nodes of a block that were read from the tokens from `first` up to
/// `next`: each was read from some of these tokens, they stand in source
/// order without overlap, and the first node starts before the last one
/// ends.
pub open spec fn all_read_from(nodes: Seq<AstView>, tokens: Seq<TokenView>, first: int, next: int, len: nat) -> bool {
    &&& forall|k: int| 0 <= k < nodes.len() ==> read_from(#[trigger] nodes[k], tokens, first, next, len)
    &&& nodes.len() > 0 ==> AstNode::spec_span(nodes.first()).unwrap().start <= AstNode::spec_span(
        nodes.last(),
    ).unwrap().end
    &&& forall|i: int, j: int|
        0 <= i < j < nodes.len() ==> AstNode::spec_span(#[trigger] nodes[i]).unwrap().end
            <= AstNode::spec_span(#[trigger] nodes[j]).unwrap().start
}

/// Later tokens start and end later, and all of them inside the text.
pub proof fn lemma_token_order(tokens: Seq<TokenView>, len: nat, i: int, j: int)
    requires
        tokens_fit(tokens, len),
        0 <= i <= j < tokens.len(),
    ensures
        tokens[i].span.start <= tokens[j].span.start,
        tokens[i].span.end <= tokens[j].span.end,
        tokens[i].span.start < tokens[i].span.end <= len,
        tokens[j].span.start < tokens[j].span.end <= len,
        i < j ==> tokens[i].span.end <= tokens[j].span.start,
{
}

/// What was read from fewer tokens was read from more tokens.
pub proof fn lemma_read_from_more(
    node: AstView,
    tokens: Seq<TokenView>,
    first: int,
    next: int,
    len: nat,
    before: int,
    after: int,
)
    requires
        tokens_fit(tokens, len),
        read_from(node, tokens, first, next, len),
        0 <= before <= first,
        next <= after <= tokens.len(),
    ensures
        read_from(node, tokens, before, after, len),
{
    lemma_token_order(tokens, len, before, first);
    lemma_token_order(tokens, len, next - 1, after - 1);
}

/// The name of a declaration stands at or after the place where its
/// modifiers start.
pub proof fn lemma_modifiers_end(tokens: Seq<TokenView>, pos: int, is_mutable: bool, is_static: bool)
    ensures
        pos <= modifiers(tokens, pos, is_mutable, is_static).name_at,
    decreases tokens.len() - pos,
{
    let follows = kind_at(tokens, pos + 1) matches Some(TokenKind::Identifier(_));
    match kind_at(tokens, pos) {
        Some(TokenKind::Identifier(word)) => {
            if follows && word == "mutable"@ {
                lemma_modifiers_end(tokens, pos + 1, true, is_static);
            } else if follows && word == "static"@ {
                lemma_modifiers_end(tokens, pos + 1, is_mutable, true);
            }
        },
        _ => {},
    }
}

/// A parameter list ends after its first token and inside the tokens.
pub proof fn lemma_parameters_end(tokens: Seq<TokenView>, pos: int, done: Seq<ParamView>)
    requires
        0 <= pos,
    ensures
        parameters_from(tokens, pos, done) matches Ok((_, next)) ==> pos < next <= tokens.len(),
    decreases tokens.len() - pos,
{
    if parameters_from(tokens, pos, done) is Ok && kind_at(tokens, pos + 3) == Some(
        TokenKind::Comma,
    ) {
        lemma_parameters_end(
            tokens,
            pos + 4,
            done.push(
                ParamView {
                    name: tokens[pos].kind->Identifier_0,
                    param_type: type_named(tokens[pos + 2].kind).unwrap(),
                },
            ),
        );
    }
}

/// An argument list ends after its first token and inside the tokens.
pub proof fn lemma_arguments_end(tokens: Seq<TokenView>, pos: int, done: Seq<ValueView>)
    requires
        0 <= pos,
    ensures
        arguments_from(tokens, pos, done) matches Ok((_, next)) ==> pos < next <= tokens.len(),
    decreases tokens.len() - pos,
{
    if arguments_from(tokens, pos, done) is Ok && kind_at(tokens, pos + 1) == Some(
        TokenKind::Comma,
    ) {
        lemma_arguments_end(tokens, pos + 2, done.push(value_at(tokens, pos).unwrap()));
    }
}

/// A statement is read from the tokens from its first one up to the one
/// that the grammar goes on with.
pub proof fn lemma_statement_extent(tokens: Seq<TokenView>, pos: int, scope: Seq<Binding>, len: nat)
    requires
        tokens_fit(tokens, len),
        0 <= pos < tokens.len(),
    ensures
        statement(tokens, pos, scope) matches Ok(read) ==> read_from(
            read.node,
            tokens,
            pos,
            read.next,
            len,
        ),
    decreases tokens.len() - pos, 1int,
{
    match statement(tokens, pos, scope) {
        Ok(read) => {
            match tokens[pos].kind {
                TokenKind::Identifier(name) => {
                    if name == "var"@ {
                        lemma_modifiers_end(tokens, pos + 1, false, false);
                    } else if kind_at(tokens, pos + 1) == Some(TokenKind::Eq) {
                    } else if kind_at(tokens, pos + 1) == Some(TokenKind::LParen) {
                        lemma_arguments_end(tokens, pos + 2, Seq::empty());
                    }
                },
                TokenKind::LBrace => {
                    lemma_block_extent(tokens, pos, scope, len);
                },
                TokenKind::If => {
                    lemma_conditional_extent(tokens, pos, scope, len);
                },
                TokenKind::While => {
                    lemma_block_extent(tokens, pos + 2, scope, len);
                },
                TokenKind::For => {
                    lemma_block_extent(tokens, pos + 2, scope, len);
                },
                _ => {},
            }
            lemma_token_order(tokens, len, pos, read.next - 1);
        },
        Err(_) => {},
    }
}

/// A conditional is read from the tokens from its `if` up to the one that
/// the grammar goes on with.
pub proof fn lemma_conditional_extent(tokens: Seq<TokenView>, pos: int, scope: Seq<Binding>, len: nat)
    requires
        tokens_fit(tokens, len),
        0 <= pos < tokens.len(),
    ensures
        conditional(tokens, pos, scope) matches Ok(read) ==> read_from(
            read.node,
            tokens,
            pos,
            read.next,
            len,
        ),
    decreases tokens.len() - pos, 0int,
{
    match conditional(tokens, pos, scope) {
        Ok(read) => {
            lemma_block_extent(tokens, pos + 2, scope, len);
            let after = braced_block(tokens, pos + 2, scope)->Ok_0.1;
            if kind_at(tokens, after) == Some(TokenKind::Else) {
                lemma_otherwise_extent(tokens, after, scope, len);
            }
            lemma_token_order(tokens, len, pos, read.next - 1);
            assert(spans_within(AstView::Empty, len));
            assert(spans_within(*read.node->Conditional_body, len));
            assert(spans_within(*read.node->Conditional_otherwise, len));
        },
        Err(_) => {},
    }
}

/// What follows an `else` is read from the tokens after the `else` up to
/// the one that the grammar goes on with.
pub proof fn lemma_otherwise_extent(tokens: Seq<TokenView>, pos: int, scope: Seq<Binding>, len: nat)
    requires
        tokens_fit(tokens, len),
        0 <= pos < tokens.len(),
    ensures
        otherwise(tokens, pos, scope) matches Ok((node, next)) ==> read_from(
            node,
            tokens,
            pos + 1,
            next,
            len,
        ),
    decreases tokens.len() - pos, 1int,
{
    if otherwise(tokens, pos, scope) is Ok {
        if kind_at(tokens, pos + 1) == Some(TokenKind::If) {
            lemma_conditional_extent(tokens, pos + 1, scope, len);
        } else {
            lemma_block_extent(tokens, pos + 1, scope, len);
        }
    }
}

/// A block is read from the tokens from its opening brace up to the one
/// after its closing brace.
pub proof fn lemma_block_extent(tokens: Seq<TokenView>, pos: int, scope: Seq<Binding>, len: nat)
    requires
        tokens_fit(tokens, len),
        0 <= pos < tokens.len(),
    ensures
        braced_block(tokens, pos, scope) matches Ok((node, next)) ==> pos + 1 < next && read_from(
            node,
            tokens,
            pos,
            next,
            len,
        ),
    decreases tokens.len() - pos, 0int,
{
    match braced_block(tokens, pos, scope) {
        Ok((node, next)) => {
            lemma_items_extent(tokens, pos + 1, scope, Seq::empty(), len, pos);
            let body = node->Block_body;
            lemma_token_order(tokens, len, pos, next - 1);
            if body.len() > 0 {
                lemma_token_order(tokens, len, pos, pos + 1);
                lemma_token_order(tokens, len, next - 2, next - 1);
                assert(read_from(body.first(), tokens, pos + 1, next - 1, len));
                assert(read_from(body.last(), tokens, pos + 1, next - 1, len));
            }
        },
        Err(_) => {},
    }
}

/// A block ends with its closing brace, and its nodes stand between the
/// braces in source order: each starts at or after the end of the opening
/// brace, ends at or before the start of the closing brace, and ends at or
/// before the start of the node after it.
pub proof fn lemma_block_body(tokens: Seq<TokenView>, pos: int, scope: Seq<Binding>, len: nat)
    requires
        tokens_fit(tokens, len),
        0 <= pos < tokens.len(),
    ensures
        braced_block(tokens, pos, scope) matches Ok((node, next)) ==> {
            &&& node is Block
            &&& pos + 1 < next <= tokens.len()
            &&& tokens[next - 1].kind == TokenKind::RBrace
            &&& forall|k: int|
                0 <= k < node->Block_body.len() ==> {
                    let child = AstNode::spec_span(#[trigger] node->Block_body[k]);
                    &&& child is Some
                    &&& tokens[pos].span.end <= child.unwrap().start
                    &&& child.unwrap().start <= child.unwrap().end
                    &&& child.unwrap().end <= tokens[next - 1].span.start
                }
            &&& forall|i: int, j: int|
                0 <= i < j < node->Block_body.len() ==> AstNode::spec_span(
                    #[trigger] node->Block_body[i],
                ).unwrap().end <= AstNode::spec_span(#[trigger] node->Block_body[j]).unwrap().start
        },
{
    match braced_block(tokens, pos, scope) {
        Ok((node, next)) => {
            lemma_items_extent(tokens, pos + 1, scope, Seq::empty(), len, pos);
            let body = node->Block_body;
            assert forall|k: int| 0 <= k < body.len() implies {
                let child = AstNode::spec_span(#[trigger] body[k]);
                &&& child is Some
                &&& tokens[pos].span.end <= child.unwrap().start
                &&& child.unwrap().start <= child.unwrap().end
                &&& child.unwrap().end <= tokens[next - 1].span.start
            } by {
                assert(read_from(body[k], tokens, pos + 1, next - 1, len));
                lemma_token_order(tokens, len, pos, pos + 1);
                lemma_token_order(tokens, len, next - 2, next - 1);
            }
        },
        Err(_) => {},
    }
}

/// The statements of a block are read from the tokens between its braces.
pub proof fn lemma_items_extent(
    tokens: Seq<TokenView>,
    pos: int,
    scope: Seq<Binding>,
    done: Seq<AstView>,
    len: nat,
    open: int,
)
    requires
        tokens_fit(tokens, len),
        0 <= open < pos <= tokens.len(),
        all_read_from(done, tokens, open + 1, pos, len),
    ensures
        block_items(tokens, pos, scope, done) matches Ok((body, next)) ==> pos < next
            <= tokens.len() && tokens[next - 1].kind == TokenKind::RBrace && all_read_from(
            body,
            tokens,
            open + 1,
            next - 1,
            len,
        ),
    decreases tokens.len() - pos, 2int,
{
    if pos < tokens.len() && block_items(tokens, pos, scope, done) is Ok {
        if tokens[pos].kind == TokenKind::RBrace {
        } else if tokens[pos].kind == TokenKind::Semicolon {
            assert forall|k: int| 0 <= k < done.len() implies read_from(
                #[trigger] done[k],
                tokens,
                open + 1,
                pos + 1,
                len,
            ) by {
                lemma_read_from_more(done[k], tokens, open + 1, pos, len, open + 1, pos + 1);
            }
            lemma_items_extent(tokens, pos + 1, scope, done, len, open);
        } else {
            lemma_statement_extent(tokens, pos, scope, len);
            let read = statement(tokens, pos, scope)->Ok_0;
            let more = done.push(read.node);
            lemma_read_from_more(read.node, tokens, pos, read.next, len, open + 1, read.next);
            assert forall|k: int| 0 <= k < more.len() implies read_from(
                #[trigger] more[k],
                tokens,
                open + 1,
                read.next,
                len,
            ) by {
                if k < done.len() {
                    lemma_read_from_more(done[k], tokens, open + 1, pos, len, open + 1, read.next);
                }
            }
            if done.len() > 0 {
                assert(read_from(done.first(), tokens, open + 1, pos, len));
                assert(more.first() == done.first());
                lemma_token_order(tokens, len, pos - 1, pos);
            }
            assert forall|i: int, j: int| 0 <= i < j < more.len() implies AstNode::spec_span(
                #[trigger] more[i],
            ).unwrap().end <= AstNode::spec_span(#[trigger] more[j]).unwrap().start by {
                if j == done.len() {
                    assert(read_from(done[i], tokens, open + 1, pos, len));
                    lemma_token_order(tokens, len, pos - 1, pos);
                } else {
                    assert(more[i] == done[i] && more[j] == done[j]);
                }
            }
            lemma_items_extent(tokens, read.next, read.scope, more, len, open);
        }
    }
}

/// A function declaration is read from the tokens from its name up to the
/// one after its body.
pub proof fn lemma_function_extent(tokens: Seq<TokenView>, pos: int, len: nat)
    requires
        tokens_fit(tokens, len),
        0 <= pos < tokens.len(),
    ensures
        function_declaration(tokens, pos) matches Ok((node, next)) ==> pos + 1 < next && read_from(
            node,
            tokens,
            pos + 1,
            next,
            len,
        ),
{
    reveal(function_declaration);
    match function_declaration(tokens, pos) {
        Ok((node, next)) => {
            lemma_parameters_end(tokens, pos + 3, Seq::empty());
            let brace_at = parameter_list(tokens, pos + 3)->Ok_0.1;
            lemma_block_extent(tokens, brace_at, Seq::empty(), len);
            lemma_token_order(tokens, len, pos + 1, next - 1);
        },
        Err(_) => {},
    }
}

/// The declarations of the top level from `pos` on are read from the
/// tokens from `pos` on, in source order.
pub proof fn lemma_top_level_extent(tokens: Seq<TokenView>, pos: int, len: nat)
    requires
        tokens_fit(tokens, len),
        0 <= pos <= tokens.len(),
    ensures
        top_level(tokens, pos).declarations.len() > 0 ==> pos < tokens.len(),
        all_read_from(top_level(tokens, pos).declarations, tokens, pos, tokens.len() as int, len),
    decreases tokens.len() - pos,
{
    let all = top_level(tokens, pos).declarations;
    let end = tokens.len() as int;
    if pos < tokens.len() {
        if tokens[pos].kind == TokenKind::Func {
            lemma_function_extent(tokens, pos, len);
            match function_declaration(tokens, pos) {
                Ok((node, next)) => {
                    lemma_top_level_extent(tokens, next, len);
                    let rest = top_level(tokens, next).declarations;
                    lemma_read_from_more(node, tokens, pos + 1, next, len, pos, end);
                    assert forall|k: int| 0 <= k < all.len() implies read_from(
                        #[trigger] all[k],
                        tokens,
                        pos,
                        end,
                        len,
                    ) by {
                        if k > 0 {
                            assert(all[k] == rest[k - 1]);
                            lemma_read_from_more(rest[k - 1], tokens, next, end, len, pos, end);
                        }
                    }
                    if rest.len() > 0 {
                        assert(all.last() == rest.last());
                        assert(read_from(rest.last(), tokens, next, end, len));
                        lemma_token_order(tokens, len, next - 1, next);
                    }
                    assert forall|i: int, j: int| 0 <= i < j < all.len() implies AstNode::spec_span(
                        #[trigger] all[i],
                    ).unwrap().end <= AstNode::spec_span(#[trigger] all[j]).unwrap().start by {
                        assert(all[j] == rest[j - 1]);
                        if i == 0 {
                            assert(read_from(rest[j - 1], tokens, next, end, len));
                            lemma_token_order(tokens, len, next - 1, next);
                        } else {
                            assert(all[i] == rest[i - 1]);
                        }
                    }
                },
                Err(_) => {},
            }
        } else {
            lemma_top_level_extent(tokens, pos + 1, len);
            let rest = top_level(tokens, pos + 1).declarations;
            assert forall|k: int| 0 <= k < all.len() implies read_from(
                #[trigger] all[k],
                tokens,
                pos,
                end,
                len,
            ) by {
                lemma_read_from_more(rest[k], tokens, pos + 1, end, len, pos, end);
            }
        }
    }
}

/// Every span in a document is a well-formed range of the text that the
/// document was parsed from.
pub proof fn lemma_document_spans(file_name: Seq<char>, bytes: Seq<u8>)
    requires
        bytes.len() <= usize::MAX,
    ensures
        parse_source(file_name, bytes).result matches Ok(document) ==> spans_within(
            document,
            bytes.len(),
        ),
{
    match lex_result(bytes) {
        Ok(tokens) => {
            lemma_scan_tokens(bytes, 0);
            assert forall|i: int| 0 <= i < tokens.len() implies (#[trigger] tokens[i]).span.start
                < tokens[i].span.end <= bytes.len() by {
                assert(is_token_of(bytes, lex(bytes).tokens[i]));
            }
            assert(tokens_fit(tokens, bytes.len()));
            lemma_top_level_extent(tokens, 0, bytes.len());
            let document = parse_tokens(file_name, tokens).result->Ok_0;
            if parse_tokens(file_name, tokens).result is Ok {
                let block = *document->Document_body;
                assert(block->Block_body == top_level(tokens, 0).declarations);
                assert forall|i: int| 0 <= i < block->Block_body.len() implies spans_within(
                    #[trigger] block->Block_body[i],
                    bytes.len(),
                ) by {
                    assert(read_from(
                        block->Block_body[i],
                        tokens,
                        0,
                        tokens.len() as int,
                        bytes.len(),
                    ));
                }
            }
            if tokens.len() > 0 {
                lemma_token_order(tokens, bytes.len(), 0, tokens.len() - 1);
                let declarations = top_level(tokens, 0).declarations;
                if declarations.len() > 0 {
                    assert(read_from(
                        declarations.first(),
                        tokens,
                        0,
                        tokens.len() as int,
                        bytes.len(),
                    ));
                    assert(read_from(
                        declarations.last(),
                        tokens,
                        0,
                        tokens.len() as int,
                        bytes.len(),
                    ));
                }
            }
            if parse_tokens(file_name, tokens).result is Ok {
                assert(spans_within(*document->Document_body, bytes.len()));
            }
        },
        Err(_) => {},
    }
}

} // verus!
