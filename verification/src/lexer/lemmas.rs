//! What holds of the tokens of every text.

use super::token::{
    is_digit, is_letter, is_number_char, lemma_letter_run_is_longest_prefix,
    lemma_number_run_is_longest_prefix, letter_run, number_run, word_token, TokenView,
};
use super::{is_blank, lex, starts_with_line_ending, symbol_token};
use vstd::prelude::*;

verus! {

/// Whether a token is one that the lexer can yield: a number is a run of
/// digits and dots that starts with a digit, an identifier is a run of
/// letters other than the keyword, and an illegal token holds a character
/// that starts no token.
pub open spec fn is_lexeme(token: TokenView) -> bool {
    match token {
        TokenView::Number(literal) => {
            &&& literal.len() > 0
            &&& is_digit(literal[0])
            &&& forall|i: int| 0 <= i < literal.len() ==> is_number_char(#[trigger] literal[i])
        },
        TokenView::Ident(name) => {
            &&& name.len() > 0
            &&& name != seq!['l', 'e', 't']
            &&& forall|i: int| 0 <= i < name.len() ==> is_letter(#[trigger] name[i])
        },
        TokenView::Illegal(c) => {
            &&& symbol_token(c) is Illegal
            &&& !is_digit(c)
            &&& !is_letter(c)
            &&& !is_blank(c)
        },
        _ => true,
    }
}

proof fn lemma_first_lexeme(token: TokenView, rest: Seq<TokenView>)
    requires
        is_lexeme(token),
        forall|i: int| 0 <= i < rest.len() ==> is_lexeme(#[trigger] rest[i]),
    ensures
        forall|i: int| 0 <= i < (seq![token] + rest).len() ==> is_lexeme(
            #[trigger] (seq![token] + rest)[i],
        ),
{
    let all = seq![token] + rest;
    assert forall|i: int| 0 <= i < all.len() implies is_lexeme(#[trigger] all[i]) by {
        if i > 0 {
            assert(all[i] == rest[i - 1]);
        }
    }
}

/// Every token of a text is one that the lexer can yield: no number is
/// empty or starts with a dot, no identifier is empty or holds anything but
/// letters, and no character is called illegal that stands for a token.
pub proof fn lemma_tokens_are_lexemes(text: Seq<char>)
    ensures
        forall|i: int| 0 <= i < lex(text).len() ==> is_lexeme(#[trigger] lex(text)[i]),
    decreases text.len(),
{
    if text.len() == 0 {
    } else if is_digit(text[0]) {
        lemma_number_run_is_longest_prefix(text);
        let run = number_run(text) as int;
        lemma_tokens_are_lexemes(text.skip(run));
        lemma_first_lexeme(TokenView::Number(text.take(run)), lex(text.skip(run)));
    } else if is_letter(text[0]) {
        lemma_letter_run_is_longest_prefix(text);
        let run = letter_run(text) as int;
        lemma_tokens_are_lexemes(text.skip(run));
        let word = text.take(run);
        assert(word[0] == text[0]);
        lemma_first_lexeme(word_token(word), lex(text.skip(run)));
    } else if text[0] == '-' && text.len() > 1 && text[1] == '>' {
        lemma_tokens_are_lexemes(text.skip(2));
        lemma_first_lexeme(TokenView::Arrow, lex(text.skip(2)));
    } else if is_blank(text[0]) || starts_with_line_ending(text) {
        lemma_tokens_are_lexemes(text.skip(1));
    } else {
        lemma_tokens_are_lexemes(text.skip(1));
        lemma_first_lexeme(symbol_token(text[0]), lex(text.skip(1)));
    }
}

} // verus!
