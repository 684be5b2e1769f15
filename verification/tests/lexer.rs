use methal::lexer::scanner::CharCursor;
use methal::lexer::token::{read_number, read_string, Token, TokenKind};
use methal::lexer::tokenize;

fn number(literal: &str) -> Token {
    Token::Number(literal.to_string())
}

fn ident(name: &str) -> Token {
    Token::Ident(name.to_string())
}

fn reading(token: &Token) -> f32 {
    match token {
        Token::Number(literal) => literal.parse::<f32>().unwrap(),
        other => panic!("no number: {:?}", other),
    }
}

#[test]
fn unit_test() {
    let input = String::from("let f -> 5x + 7y = 1");
    let tokens = tokenize(input);

    let rhs = vec![
        Token::Let,
        ident("f"),
        Token::Arrow,
        number("5"),
        ident("x"),
        Token::Plus,
        number("7"),
        ident("y"),
        Token::Assign,
        number("1"),
    ];

    assert_eq!(tokens, rhs);
    assert_eq!(reading(&tokens[3]), 5.0);
    assert_eq!(reading(&tokens[6]), 7.0);
    assert_eq!(reading(&tokens[9]), 1.0);
}

#[test]
fn empty_text_has_no_tokens() {
    assert_eq!(tokenize(String::new()), Vec::<Token>::new());
    assert_eq!(tokenize(String::from(" \t\n  ")), Vec::<Token>::new());
}

#[test]
fn every_symbol_has_its_token() {
    let tokens = tokenize(String::from("+-*/%^()=;"));
    assert_eq!(
        tokens,
        vec![
            Token::Plus,
            Token::Minus,
            Token::Mult,
            Token::Div,
            Token::Mod,
            Token::Pow,
            Token::LParen,
            Token::RParen,
            Token::Assign,
            Token::Semicolon,
        ]
    );
}

#[test]
fn arrow_needs_both_characters_side_by_side() {
    assert_eq!(tokenize(String::from("->")), vec![Token::Arrow]);
    assert_eq!(tokenize(String::from("-")), vec![Token::Minus]);
    assert_eq!(
        tokenize(String::from("- >")),
        vec![Token::Minus, Token::Illegal('>')]
    );
    assert_eq!(
        tokenize(String::from("-\n>")),
        vec![Token::Minus, Token::Illegal('>')]
    );
    assert_eq!(
        tokenize(String::from("-->")),
        vec![Token::Minus, Token::Arrow]
    );
}

#[test]
fn unknown_characters_become_illegal_tokens() {
    assert_eq!(
        tokenize(String::from("a $ b")),
        vec![ident("a"), Token::Illegal('$'), ident("b")]
    );
    assert_eq!(tokenize(String::from(".5")), vec![Token::Illegal('.'), number("5")]);
    assert_eq!(tokenize(String::from("é")), vec![Token::Illegal('é')]);
}

#[test]
fn a_number_is_the_longest_run_of_digits_and_dots() {
    assert_eq!(tokenize(String::from("3.25")), vec![number("3.25")]);
    assert_eq!(tokenize(String::from("12 34")), vec![number("12"), number("34")]);
    assert_eq!(tokenize(String::from("1.2.3")), vec![number("1.2.3")]);
    assert_eq!(tokenize(String::from("7.")), vec![number("7.")]);
    assert_eq!(reading(&tokenize(String::from("3.25"))[0]), 3.25);
    assert_eq!(reading(&tokenize(String::from("7."))[0]), 7.0);
}

#[test]
fn a_word_is_the_longest_run_of_letters() {
    assert_eq!(tokenize(String::from("let")), vec![Token::Let]);
    assert_eq!(tokenize(String::from("lets")), vec![ident("lets")]);
    assert_eq!(tokenize(String::from("Let")), vec![ident("Let")]);
    assert_eq!(tokenize(String::from("le t")), vec![ident("le"), ident("t")]);
    assert_eq!(
        tokenize(String::from("abc1def")),
        vec![ident("abc"), number("1"), ident("def")]
    );
    assert_eq!(
        tokenize(String::from("x_y")),
        vec![ident("x"), Token::Illegal('_'), ident("y")]
    );
}

#[test]
fn line_endings_separate_tokens() {
    assert_eq!(
        tokenize(String::from("let a -> 1\nb = 2")),
        vec![
            Token::Let,
            ident("a"),
            Token::Arrow,
            number("1"),
            ident("b"),
            Token::Assign,
            number("2"),
        ]
    );
    assert_eq!(tokenize(String::from("1\r\n2")), vec![number("1"), number("2")]);
    assert_eq!(tokenize(String::from("a\r\n")), vec![ident("a")]);
}

#[test]
fn a_lone_carriage_return_is_illegal() {
    assert_eq!(
        tokenize(String::from("1\r2")),
        vec![number("1"), Token::Illegal('\r'), number("2")]
    );
    assert_eq!(tokenize(String::from("a\r")), vec![ident("a"), Token::Illegal('\r')]);
    assert_eq!(
        tokenize(String::from("\r\r\n")),
        vec![Token::Illegal('\r')]
    );
}

#[test]
fn kinds_of_tokens() {
    assert_eq!(ident("f").kind(), TokenKind::Ident);
    assert_eq!(Token::Assign.kind(), TokenKind::Assign);
    assert_eq!(Token::Arrow.kind(), TokenKind::Arrow);
    assert_eq!(Token::Semicolon.kind(), TokenKind::Semicolon);
    assert_eq!(Token::Plus.kind(), TokenKind::Syntax);
    assert_eq!(Token::Minus.kind(), TokenKind::Syntax);
    assert_eq!(Token::Mult.kind(), TokenKind::Syntax);
    assert_eq!(Token::Div.kind(), TokenKind::Syntax);
    assert_eq!(Token::Mod.kind(), TokenKind::Syntax);
    assert_eq!(Token::Pow.kind(), TokenKind::Syntax);
    assert_eq!(Token::LParen.kind(), TokenKind::Syntax);
    assert_eq!(Token::RParen.kind(), TokenKind::Syntax);
    assert_eq!(number("1").kind(), TokenKind::Syntax);
    assert_eq!(Token::Let.kind(), TokenKind::Syntax);
    assert_eq!(Token::Illegal('?').kind(), TokenKind::Syntax);
}

#[test]
fn a_token_and_its_clone_are_equal() {
    let tokens = vec![ident("name"), number("4.5"), Token::Illegal('#'), Token::Arrow];
    for token in tokens.iter() {
        assert_eq!(&token.clone(), token);
    }
}

#[test]
fn read_number_stops_behind_the_run() {
    let mut chars = CharCursor::new("12.5+x");
    assert_eq!(read_number(&mut chars), number("12.5"));
    assert_eq!(chars.peek(), Some('+'));

    let mut chars = CharCursor::new("x1");
    assert_eq!(read_number(&mut chars), number(""));
    assert_eq!(chars.peek(), Some('x'));

    let mut chars = CharCursor::new("99");
    assert_eq!(read_number(&mut chars), number("99"));
    assert!(chars.is_empty());
}

#[test]
fn read_string_stops_behind_the_run() {
    let mut chars = CharCursor::new("rate2");
    assert_eq!(read_string(&mut chars), ident("rate"));
    assert_eq!(chars.peek(), Some('2'));

    let mut chars = CharCursor::new("let x");
    assert_eq!(read_string(&mut chars), Token::Let);
    assert_eq!(chars.peek(), Some(' '));

    let mut chars = CharCursor::new("1a");
    assert_eq!(read_string(&mut chars), ident(""));
    assert_eq!(chars.peek(), Some('1'));
}

#[test]
fn the_character_cursor_reads_in_order() {
    let mut chars = CharCursor::new("ab");
    assert!(!chars.is_empty());
    assert_eq!(chars.peek(), Some('a'));
    assert_eq!(chars.peek_second(), Some('b'));
    assert_eq!(chars.next(), Some('a'));
    assert_eq!(chars.peek(), Some('b'));
    assert_eq!(chars.peek_second(), None);
    assert_eq!(chars.next(), Some('b'));
    assert!(chars.is_empty());
    assert_eq!(chars.peek(), None);
    assert_eq!(chars.next(), None);
    assert_eq!(chars.next(), None);
}
