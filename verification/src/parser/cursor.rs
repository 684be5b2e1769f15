//! A cursor over a token stream, with one token of lookahead.

use crate::lexer::token::{token_views, Token, TokenView};
use vstd::prelude::*;

verus! {

/// The tokens that are still to be parsed. Tokens are handed out in order,
/// each one once.
pub struct TokenCursor {
    /// The remaining tokens, last one first.
    stack: Vec<Token>,
}

impl View for TokenCursor {
    type V = Seq<TokenView>;

    /// The models of the remaining tokens, next one first.
    open spec fn view(&self) -> Seq<TokenView> {
        token_views(self.remaining())
    }
}

/// The model of the first token, if there is one.
pub open spec fn first_of(tokens: Seq<TokenView>) -> Option<TokenView> {
    if tokens.len() > 0 {
        Some(tokens[0])
    } else {
        None
    }
}

/// The tokens behind the first one; nothing where there is none.
pub open spec fn skip_one(tokens: Seq<TokenView>) -> Seq<TokenView> {
    if tokens.len() > 0 {
        tokens.skip(1)
    } else {
        tokens
    }
}

/// Whether `rest` is what is left of `tokens` when some tokens have been
/// taken from its front.
pub open spec fn is_rest_of(rest: Seq<TokenView>, tokens: Seq<TokenView>) -> bool {
    rest.len() <= tokens.len() && rest == tokens.skip(tokens.len() - rest.len())
}

/// Whether `rest` is what is left of `tokens` when tokens have been taken
/// from its front: at least one, if there was one.
pub open spec fn is_rest_behind(rest: Seq<TokenView>, tokens: Seq<TokenView>) -> bool {
    is_rest_of(rest, tokens) && (tokens.len() > 0 ==> rest.len() < tokens.len())
}

/// The model of a token that may be absent.
pub open spec fn optional_view(token: Option<Token>) -> Option<TokenView> {
    match token {
        Some(token) => Some(token@),
        None => None,
    }
}

impl TokenCursor {
    /// The tokens that have not been consumed yet, next one first.
    pub closed spec fn remaining(&self) -> Seq<Token> {
        self.stack@.reverse()
    }

    /// A cursor at the start of `tokens`.
    pub fn new(tokens: Vec<Token>) -> (cursor: Self)
        ensures
            cursor.remaining() == tokens@,
    {
        let ghost all = tokens@;
        let mut tokens = tokens;
        let mut stack: Vec<Token> = Vec::new();
        while tokens.len() > 0
            invariant
                tokens@ + stack@.reverse() =~= all,
            decreases tokens.len(),
        {
            let token = tokens.pop().unwrap();
            stack.push(token);
        }
        TokenCursor { stack }
    }

    /// Whether every token has been consumed.
    pub fn is_empty(&self) -> (empty: bool)
        ensures
            empty == (self@.len() == 0),
    {
        self.stack.len() == 0
    }

    /// The next token, which stays in place.
    pub fn peek(&self) -> (next: Option<&Token>)
        ensures
            match next {
                Some(token) => self.remaining().len() > 0 && *token == self.remaining()[0],
                None => self.remaining().len() == 0,
            },
            match next {
                Some(token) => first_of(self@) == Some(token@),
                None => first_of(self@) is None,
            },
    {
        if self.stack.len() == 0 {
            None
        } else {
            Some(&self.stack[self.stack.len() - 1])
        }
    }

    /// Consumes and returns the next token.
    pub fn next(&mut self) -> (next: Option<Token>)
        ensures
            match next {
                Some(token) => old(self).remaining().len() > 0 && token == old(self).remaining()[0]
                    && final(self).remaining() == old(self).remaining().skip(1),
                None => old(self).remaining().len() == 0 && final(self).remaining() == old(
                    self,
                ).remaining(),
            },
            optional_view(next) == first_of(old(self)@),
            final(self)@ == skip_one(old(self)@),
    {
        let ghost before = self.remaining();
        let next = self.stack.pop();
        proof {
            if before.len() > 0 {
                assert(self.remaining() =~= before.skip(1));
                assert(token_views(before.skip(1)) =~= token_views(before).skip(1));
            }
        }
        next
    }
}

} // verus!
