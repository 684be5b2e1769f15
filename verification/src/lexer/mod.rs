//! The lexer: from source text to a flat sequence of tokens.

pub mod lemmas;
pub mod scanner;
pub mod token;

pub use scanner::CharCursor;
pub use token::{Token, TokenKind, TokenView};

use token::{
    is_digit, is_letter, lemma_letter_run_is_longest_prefix, lemma_number_run_is_longest_prefix,
    letter_run, number_run, read_number, read_string, token_views, word_token,
};
use vstd::prelude::*;

verus! {

/// Space, tab and line feed separate tokens and stand for nothing themselves.
pub open spec fn is_blank(c: char) -> bool {
    c == ' ' || c == '\t' || c == '\n'
}

/// Whether `text` starts with a carriage return that a line feed follows.
/// Such a carriage return belongs to the line ending and is skipped like a
/// blank; any other carriage return is an illegal character.
pub open spec fn starts_with_line_ending(text: Seq<char>) -> bool {
    text.len() > 1 && text[0] == '\r' && text[1] == '\n'
}

/// The token that a single character stands for when it starts neither a
/// number, a word, an arrow nor a blank.
pub open spec fn symbol_token(c: char) -> TokenView {
    if c == '+' {
        TokenView::Plus
    } else if c == '-' {
        TokenView::Minus
    } else if c == '*' {
        TokenView::Mult
    } else if c == '/' {
        TokenView::Div
    } else if c == '%' {
        TokenView::Mod
    } else if c == '^' {
        TokenView::Pow
    } else if c == '(' {
        TokenView::LParen
    } else if c == ')' {
        TokenView::RParen
    } else if c == '=' {
        TokenView::Assign
    } else if c == ';' {
        TokenView::Semicolon
    } else {
        TokenView::Illegal(c)
    }
}

/// The tokens of a text.
///
/// At each position the longest token is taken: a number is a run of digits
/// and dots that starts with a digit, a word is a run of letters, `->` is an
/// arrow where a lone `-` is a minus sign. Blanks and line endings are
/// skipped. A character that starts no token becomes an illegal token, and
/// lexing goes on behind it.
pub open spec fn lex(text: Seq<char>) -> Seq<TokenView>
    decreases text.len(),
{
    if text.len() == 0 {
        Seq::empty()
    } else if is_digit(text[0]) {
        proof {
            lemma_number_run_is_longest_prefix(text);
        }
        let run = number_run(text) as int;
        seq![TokenView::Number(text.take(run))] + lex(text.skip(run))
    } else if is_letter(text[0]) {
        proof {
            lemma_letter_run_is_longest_prefix(text);
        }
        let run = letter_run(text) as int;
        seq![word_token(text.take(run))] + lex(text.skip(run))
    } else if text[0] == '-' && text.len() > 1 && text[1] == '>' {
        seq![TokenView::Arrow] + lex(text.skip(2))
    } else if is_blank(text[0]) || starts_with_line_ending(text) {
        lex(text.skip(1))
    } else {
        seq![symbol_token(text[0])] + lex(text.skip(1))
    }
}

fn symbol(c: char) -> (token: Token)
    ensures
        token@ == symbol_token(c),
{
    if c == '+' {
        Token::Plus
    } else if c == '-' {
        Token::Minus
    } else if c == '*' {
        Token::Mult
    } else if c == '/' {
        Token::Div
    } else if c == '%' {
        Token::Mod
    } else if c == '^' {
        Token::Pow
    } else if c == '(' {
        Token::LParen
    } else if c == ')' {
        Token::RParen
    } else if c == '=' {
        Token::Assign
    } else if c == ';' {
        Token::Semicolon
    } else {
        Token::Illegal(c)
    }
}

/// Cuts a text into its tokens.
pub fn tokenize(content: String) -> (tokens: Vec<Token>)
    ensures
        token_views(tokens@) == lex(content@),
{
    let mut chars = CharCursor::new(content.as_str());
    let mut tokens: Vec<Token> = Vec::new();
    assert(token_views(tokens@) =~= Seq::<TokenView>::empty());
    loop
        invariant
            token_views(tokens@) + lex(chars.remaining()) == lex(content@),
        ensures
            token_views(tokens@) == lex(content@),
        decreases chars.remaining().len(),
    {
        let ghost text = chars.remaining();
        let ghost before = tokens@;
        match chars.peek() {
            None => {
                assert(token_views(tokens@) + Seq::<TokenView>::empty() =~= token_views(tokens@));
                break ;
            },
            Some(c) => {
                if '0' <= c && c <= '9' {
                    proof {
                        lemma_number_run_is_longest_prefix(text);
                    }
                    let token = read_number(&mut chars);
                    tokens.push(token);
                    proof {
                        lemma_views_push(before, token);
                    }
                } else if ('a' <= c && c <= 'z') || ('A' <= c && c <= 'Z') {
                    proof {
                        lemma_letter_run_is_longest_prefix(text);
                    }
                    let token = read_string(&mut chars);
                    tokens.push(token);
                    proof {
                        lemma_views_push(before, token);
                    }
                } else if c == '-' {
                    chars.next();
                    match chars.peek() {
                        Some('>') => {
                            chars.next();
                            assert(chars.remaining() =~= text.skip(2));
                            tokens.push(Token::Arrow);
                            proof {
                                lemma_views_push(before, Token::Arrow);
                            }
                        },
                        _ => {
                            tokens.push(Token::Minus);
                            proof {
                                lemma_views_push(before, Token::Minus);
                            }
                        },
                    }
                } else if c == ' ' || c == '\t' || c == '\n' {
                    chars.next();
                } else if c == '\r' && chars.peek_second() == Some('\n') {
                    chars.next();
                } else {
                    chars.next();
                    let token = symbol(c);
                    tokens.push(token);
                    proof {
                        lemma_views_push(before, token);
                    }
                }
            },
        }
    }
    tokens
}

/// The models of a sequence with one more token at its end.
proof fn lemma_views_push(tokens: Seq<Token>, token: Token)
    ensures
        token_views(tokens.push(token)) == token_views(tokens) + seq![token@],
{
    assert(token_views(tokens.push(token)) =~= token_views(tokens) + seq![token@]);
}

} // verus!
