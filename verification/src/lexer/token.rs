//! Tokens, their coarse kinds, and the scanning of the two tokens that span
//! several characters: numbers and words.

use super::scanner::CharCursor;
use vstd::prelude::*;

verus! {

/// The smallest lexical unit of the language.
///
/// A number carries the literal as it was written: a run of digits and dots.
/// What value the literal denotes is decided where the expression is
/// evaluated, not here.
#[derive(Debug, PartialEq, Eq)]
pub enum Token {
    Plus,
    Minus,
    Mult,
    Div,
    Mod,
    Pow,
    LParen,
    RParen,
    Number(String),
    Ident(String),
    Let,
    Assign,
    Arrow,
    Semicolon,
    Illegal(char),
}

/// The mathematical model of a [`Token`]: texts are sequences of characters.
pub enum TokenView {
    Plus,
    Minus,
    Mult,
    Div,
    Mod,
    Pow,
    LParen,
    RParen,
    Number(Seq<char>),
    Ident(Seq<char>),
    Let,
    Assign,
    Arrow,
    Semicolon,
    Illegal(char),
}

/// The coarse classes of tokens that the statement grammar asks for.
#[derive(Debug, Clone, Copy, PartialEq, Eq, Structural)]
pub enum TokenKind {
    Ident,
    Arrow,
    Assign,
    Semicolon,
    Syntax,
}

impl View for Token {
    type V = TokenView;

    open spec fn view(&self) -> TokenView {
        match self {
            Token::Plus => TokenView::Plus,
            Token::Minus => TokenView::Minus,
            Token::Mult => TokenView::Mult,
            Token::Div => TokenView::Div,
            Token::Mod => TokenView::Mod,
            Token::Pow => TokenView::Pow,
            Token::LParen => TokenView::LParen,
            Token::RParen => TokenView::RParen,
            Token::Number(literal) => TokenView::Number(literal@),
            Token::Ident(name) => TokenView::Ident(name@),
            Token::Let => TokenView::Let,
            Token::Assign => TokenView::Assign,
            Token::Arrow => TokenView::Arrow,
            Token::Semicolon => TokenView::Semicolon,
            Token::Illegal(c) => TokenView::Illegal(*c),
        }
    }
}

impl Clone for Token {
    fn clone(&self) -> (copy: Self)
        ensures
            copy@ == self@,
    {
        match self {
            Token::Plus => Token::Plus,
            Token::Minus => Token::Minus,
            Token::Mult => Token::Mult,
            Token::Div => Token::Div,
            Token::Mod => Token::Mod,
            Token::Pow => Token::Pow,
            Token::LParen => Token::LParen,
            Token::RParen => Token::RParen,
            Token::Number(literal) => Token::Number(literal.clone()),
            Token::Ident(name) => Token::Ident(name.clone()),
            Token::Let => Token::Let,
            Token::Assign => Token::Assign,
            Token::Arrow => Token::Arrow,
            Token::Semicolon => Token::Semicolon,
            Token::Illegal(c) => Token::Illegal(*c),
        }
    }
}

impl TokenView {
    /// The coarse kind of a token: identifiers, arrows, assignment signs and
    /// semicolons have a kind of their own, everything else is syntax.
    pub open spec fn kind(self) -> TokenKind {
        match self {
            TokenView::Ident(_) => TokenKind::Ident,
            TokenView::Assign => TokenKind::Assign,
            TokenView::Arrow => TokenKind::Arrow,
            TokenView::Semicolon => TokenKind::Semicolon,
            _ => TokenKind::Syntax,
        }
    }
}

impl Token {
    /// The coarse kind of this token.
    pub fn kind(&self) -> (kind: TokenKind)
        ensures
            kind == self@.kind(),
    {
        match self {
            Token::Ident(_) => TokenKind::Ident,
            Token::Assign => TokenKind::Assign,
            Token::Arrow => TokenKind::Arrow,
            Token::Semicolon => TokenKind::Semicolon,
            _ => TokenKind::Syntax,
        }
    }
}

/// The models of a sequence of tokens, in order.
pub open spec fn token_views(tokens: Seq<Token>) -> Seq<TokenView> {
    tokens.map_values(|token: Token| token@)
}

/// An ASCII decimal digit.
pub open spec fn is_digit(c: char) -> bool {
    '0' <= c <= '9'
}

/// A character that may stand in a number literal: a digit or a dot.
pub open spec fn is_number_char(c: char) -> bool {
    is_digit(c) || c == '.'
}

/// An ASCII letter.
pub open spec fn is_letter(c: char) -> bool {
    ('a' <= c <= 'z') || ('A' <= c <= 'Z')
}

/// How many characters at the start of `text` may stand in a number literal.
pub open spec fn number_run(text: Seq<char>) -> nat
    decreases text.len(),
{
    if text.len() > 0 && is_number_char(text[0]) {
        1 + number_run(text.skip(1))
    } else {
        0
    }
}

/// How many characters at the start of `text` are letters.
pub open spec fn letter_run(text: Seq<char>) -> nat
    decreases text.len(),
{
    if text.len() > 0 && is_letter(text[0]) {
        1 + letter_run(text.skip(1))
    } else {
        0
    }
}

/// The token that a word stands for: the keyword `let`, or an identifier.
pub open spec fn word_token(word: Seq<char>) -> TokenView {
    if word == seq!['l', 'e', 't'] {
        TokenView::Let
    } else {
        TokenView::Ident(word)
    }
}

/// `number_run` is the length of the longest prefix made of number
/// characters: it fits in the text, every character before it is a number
/// character, and the character at it, if there is one, is not.
pub proof fn lemma_number_run_is_longest_prefix(text: Seq<char>)
    ensures
        number_run(text) <= text.len(),
        forall|i: int| 0 <= i < number_run(text) ==> is_number_char(#[trigger] text[i]),
        number_run(text) < text.len() ==> !is_number_char(text[number_run(text) as int]),
    decreases text.len(),
{
    if text.len() > 0 && is_number_char(text[0]) {
        let rest = text.skip(1);
        lemma_number_run_is_longest_prefix(rest);
        assert forall|i: int| 0 <= i < number_run(text) implies is_number_char(
            #[trigger] text[i],
        ) by {
            if i > 0 {
                assert(text[i] == rest[i - 1]);
            }
        }
        if number_run(text) < text.len() {
            assert(text[number_run(text) as int] == rest[number_run(rest) as int]);
        }
    }
}

/// `letter_run` is the length of the longest prefix made of letters.
pub proof fn lemma_letter_run_is_longest_prefix(text: Seq<char>)
    ensures
        letter_run(text) <= text.len(),
        forall|i: int| 0 <= i < letter_run(text) ==> is_letter(#[trigger] text[i]),
        letter_run(text) < text.len() ==> !is_letter(text[letter_run(text) as int]),
    decreases text.len(),
{
    if text.len() > 0 && is_letter(text[0]) {
        let rest = text.skip(1);
        lemma_letter_run_is_longest_prefix(rest);
        assert forall|i: int| 0 <= i < letter_run(text) implies is_letter(#[trigger] text[i]) by {
            if i > 0 {
                assert(text[i] == rest[i - 1]);
            }
        }
        if letter_run(text) < text.len() {
            assert(text[letter_run(text) as int] == rest[letter_run(rest) as int]);
        }
    }
}

/// Appends one character to a text.
///
/// Trusted: `String::push` is documented to append the given character to the
/// end of the string, and nothing else.
#[verifier::external_body]
fn push_char(text: &mut String, c: char)
    ensures
        final(text)@ == old(text)@.push(c),
{
    text.push(c)
}

fn digit(c: char) -> (yes: bool)
    ensures
        yes == is_digit(c),
{
    '0' <= c && c <= '9'
}

fn letter(c: char) -> (yes: bool)
    ensures
        yes == is_letter(c),
{
    ('a' <= c && c <= 'z') || ('A' <= c && c <= 'Z')
}

/// Reads a number literal: the longest run of digits and dots at the cursor.
/// The cursor is left at the first character after the run.
pub fn read_number(chars: &mut CharCursor) -> (token: Token)
    ensures
        token@ == TokenView::Number(
            old(chars).remaining().take(number_run(old(chars).remaining()) as int),
        ),
        final(chars).remaining() == old(chars).remaining().skip(
            number_run(old(chars).remaining()) as int,
        ),
{
    let ghost text = chars.remaining();
    let mut literal = String::new();
    let ghost mut taken: int = 0;
    assert(text.skip(0) =~= text);
    assert(text.take(0) =~= Seq::<char>::empty());
    loop
        invariant
            0 <= taken <= text.len(),
            chars.remaining() == text.skip(taken),
            literal@ == text.take(taken),
            number_run(text) == taken + number_run(text.skip(taken)),
        ensures
            taken == number_run(text),
            chars.remaining() == text.skip(taken),
            literal@ == text.take(taken),
        decreases text.len() - taken,
    {
        match chars.peek() {
            Some(c) => {
                if digit(c) || c == '.' {
                    push_char(&mut literal, c);
                    chars.next();
                    proof {
                        assert(text.skip(taken).skip(1) =~= text.skip(taken + 1));
                        assert(text.take(taken).push(c) =~= text.take(taken + 1));
                        taken = taken + 1;
                    }
                } else {
                    break ;
                }
            },
            None => {
                break ;
            },
        }
    }
    Token::Number(literal)
}

/// Reads a word: the longest run of letters at the cursor. The word `let` is
/// the keyword, any other word an identifier. The cursor is left at the first
/// character after the run.
pub fn read_string(chars: &mut CharCursor) -> (token: Token)
    ensures
        token@ == word_token(
            old(chars).remaining().take(letter_run(old(chars).remaining()) as int),
        ),
        final(chars).remaining() == old(chars).remaining().skip(
            letter_run(old(chars).remaining()) as int,
        ),
{
    let ghost text = chars.remaining();
    let mut word = String::new();
    let ghost mut taken: int = 0;
    assert(text.skip(0) =~= text);
    assert(text.take(0) =~= Seq::<char>::empty());
    loop
        invariant
            0 <= taken <= text.len(),
            chars.remaining() == text.skip(taken),
            word@ == text.take(taken),
            letter_run(text) == taken + letter_run(text.skip(taken)),
        ensures
            taken == letter_run(text),
            chars.remaining() == text.skip(taken),
            word@ == text.take(taken),
        decreases text.len() - taken,
    {
        match chars.peek() {
            Some(c) => {
                if letter(c) {
                    push_char(&mut word, c);
                    chars.next();
                    proof {
                        assert(text.skip(taken).skip(1) =~= text.skip(taken + 1));
                        assert(text.take(taken).push(c) =~= text.take(taken + 1));
                        taken = taken + 1;
                    }
                } else {
                    break ;
                }
            },
            None => {
                break ;
            },
        }
    }
    let keyword = String::from_str("let");
    proof {
        reveal_strlit("let");
        assert(keyword@ =~= seq!['l', 'e', 't']);
    }
    if word == keyword {
        Token::Let
    } else {
        Token::Ident(word)
    }
}

} // verus!
