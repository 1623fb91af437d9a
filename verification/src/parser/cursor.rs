//! A cursor over the tokens: the current token, one token of lookahead, and
//! a single way forward.

use crate::lexer::token::{same_kind, Token, TokenType};
use vstd::prelude::*;

verus! {

/// A position in a sequence of tokens. It moves forward only, one token at
/// a time, and never past the end.
pub struct Cursor<'t> {
    tokens: &'t Vec<Token>,
    pos: usize,
}

impl<'t> Cursor<'t> {
    /// The cursor is never past the end.
    #[verifier::type_invariant]
    spec fn in_bounds(self) -> bool {
        self.pos <= self.tokens@.len()
    }

    /// The tokens that the cursor runs over.
    pub closed spec fn tokens(&self) -> Seq<Token> {
        self.tokens@
    }

    /// The index of the current token; at the end, the number of tokens.
    pub closed spec fn position(&self) -> int {
        self.pos as int
    }

    /// A cursor at the first of `tokens`.
    pub fn new(tokens: &'t Vec<Token>) -> (cursor: Self)
        ensures
            cursor.tokens() == tokens@,
            cursor.position() == 0,
            0 <= cursor.position() <= cursor.tokens().len(),
    {
        Cursor { tokens, pos: 0 }
    }

    /// The index of the current token.
    pub fn index(&self) -> (index: usize)
        ensures
            index == self.position(),
            index <= self.tokens().len(),
    {
        proof {
            use_type_invariant(self);
        }
        self.pos
    }

    /// The current token, unless the cursor is at the end.
    pub fn peek(&self) -> (token: Option<&'t Token>)
        ensures
            0 <= self.position() <= self.tokens().len(),
            match token {
                Some(token) => self.position() < self.tokens().len() && *token
                    == self.tokens()[self.position()],
                None => self.position() == self.tokens().len(),
            },
    {
        proof {
            use_type_invariant(self);
        }
        if self.pos < self.tokens.len() {
            Some(&self.tokens[self.pos])
        } else {
            None
        }
    }

    /// The token after the current one, if there is one.
    pub fn peek_next(&self) -> (token: Option<&'t Token>)
        ensures
            0 <= self.position() <= self.tokens().len(),
            match token {
                Some(token) => self.position() + 1 < self.tokens().len() && *token
                    == self.tokens()[self.position() + 1],
                None => self.position() + 1 >= self.tokens().len(),
            },
    {
        proof {
            use_type_invariant(self);
        }
        if self.pos < self.tokens.len() && self.pos + 1 < self.tokens.len() {
            Some(&self.tokens[self.pos + 1])
        } else {
            None
        }
    }

    /// The token before the current one, if there is one.
    pub fn previous(&self) -> (token: Option<&'t Token>)
        ensures
            0 <= self.position() <= self.tokens().len(),
            match token {
                Some(token) => self.position() > 0 && *token == self.tokens()[self.position() - 1],
                None => self.position() == 0,
            },
    {
        proof {
            use_type_invariant(self);
        }
        if self.pos > 0 {
            Some(&self.tokens[self.pos - 1])
        } else {
            None
        }
    }

    /// The last token of all, if there is any token.
    pub fn last(&self) -> (token: Option<&'t Token>)
        ensures
            0 <= self.position() <= self.tokens().len(),
            match token {
                Some(token) => self.tokens().len() > 0 && *token == self.tokens()[
                    self.tokens().len() - 1
                ],
                None => self.tokens().len() == 0,
            },
    {
        proof {
            use_type_invariant(self);
        }
        if self.tokens.len() > 0 {
            Some(&self.tokens[self.tokens.len() - 1])
        } else {
            None
        }
    }

    /// Moves past the current token and hands it out. At the end the cursor
    /// stays where it is.
    pub fn advance(&mut self) -> (token: Option<&'t Token>)
        ensures
            final(self).tokens() == old(self).tokens(),
            0 <= old(self).position() <= old(self).tokens().len(),
            match token {
                Some(token) => {
                    &&& old(self).position() < old(self).tokens().len()
                    &&& *token == old(self).tokens()[old(self).position()]
                    &&& final(self).position() == old(self).position() + 1
                },
                None => {
                    &&& old(self).position() == old(self).tokens().len()
                    &&& final(self).position() == old(self).position()
                },
            },
    {
        proof {
            use_type_invariant(&*self);
        }
        if self.pos < self.tokens.len() {
            let token = &self.tokens[self.pos];
            self.pos = self.pos + 1;
            Some(token)
        } else {
            None
        }
    }

    /// Moves past the current token and hands it out, if it is of the kind
    /// of `wanted`. Otherwise the cursor stays where it is.
    pub fn expect(&mut self, wanted: &TokenType) -> (token: Option<&'t Token>)
        ensures
            final(self).tokens() == old(self).tokens(),
            0 <= old(self).position() <= old(self).tokens().len(),
            match token {
                Some(token) => {
                    &&& old(self).position() < old(self).tokens().len()
                    &&& *token == old(self).tokens()[old(self).position()]
                    &&& same_kind(token.token_type@, wanted@)
                    &&& final(self).position() == old(self).position() + 1
                },
                None => {
                    &&& final(self).position() == old(self).position()
                    &&& old(self).position() < old(self).tokens().len() ==> !same_kind(
                        old(self).tokens()[old(self).position()].token_type@,
                        wanted@,
                    )
                },
            },
    {
        proof {
            use_type_invariant(&*self);
        }
        if self.pos < self.tokens.len() && self.tokens[self.pos].token_type.same_kind(wanted) {
            let token = &self.tokens[self.pos];
            self.pos = self.pos + 1;
            Some(token)
        } else {
            None
        }
    }
}

} // verus!
