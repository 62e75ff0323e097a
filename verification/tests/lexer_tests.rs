use schema_mapper::lexer::{tokenize, CharClass, Token, TokenKind};
use schema_mapper::text::chars_of;

fn kinds(text: &str) -> Vec<TokenKind> {
    tokenize(&chars_of(text)).unwrap().iter().map(|t| t.kind).collect()
}

#[test]
fn chars_of_keeps_every_character() {
    assert_eq!(chars_of("a?é"), vec!['a', '?', 'é']);
    assert_eq!(chars_of(""), Vec::<char>::new());
}

#[test]
fn tokens_carry_their_span() {
    let tokens = tokenize(&chars_of("select * from person")).unwrap();
    assert_eq!(
        tokens,
        vec![
            Token { kind: TokenKind::Word, start: 0, end: 6 },
            Token { kind: TokenKind::Star, start: 7, end: 8 },
            Token { kind: TokenKind::Word, start: 9, end: 13 },
            Token { kind: TokenKind::Word, start: 14, end: 20 },
        ]
    );
}

#[test]
fn every_kind_of_token_is_recognised() {
    assert_eq!(
        kinds("a_1 , ( ) = < <= > >= ? * 12 -7 'x y'"),
        vec![
            TokenKind::Word,
            TokenKind::Comma,
            TokenKind::OpenParen,
            TokenKind::CloseParen,
            TokenKind::Equal,
            TokenKind::Less,
            TokenKind::LessEqual,
            TokenKind::Greater,
            TokenKind::GreaterEqual,
            TokenKind::Placeholder,
            TokenKind::Star,
            TokenKind::Number,
            TokenKind::Number,
            TokenKind::Text,
        ]
    );
}

#[test]
fn tokens_need_no_space_between_them() {
    assert_eq!(
        kinds("t(a,b)"),
        vec![
            TokenKind::Word,
            TokenKind::OpenParen,
            TokenKind::Word,
            TokenKind::Comma,
            TokenKind::Word,
            TokenKind::CloseParen,
        ]
    );
    assert_eq!(kinds("a<=?"), vec![TokenKind::Word, TokenKind::LessEqual, TokenKind::Placeholder]);
}

#[test]
fn a_text_ends_at_the_next_quote() {
    let tokens = tokenize(&chars_of("'a?b' c")).unwrap();
    assert_eq!(tokens[0], Token { kind: TokenKind::Text, start: 0, end: 5 });
    assert_eq!(tokens[1], Token { kind: TokenKind::Word, start: 6, end: 7 });
    let tokens = tokenize(&chars_of("''")).unwrap();
    assert_eq!(tokens, vec![Token { kind: TokenKind::Text, start: 0, end: 2 }]);
}

#[test]
fn what_starts_no_token_is_an_error_at_its_position() {
    assert_eq!(tokenize(&chars_of("a = #")), Err(4));
    assert_eq!(tokenize(&chars_of("a = 'open")), Err(4));
    assert_eq!(tokenize(&chars_of("- 5")), Err(0));
    assert_eq!(tokenize(&chars_of("a;")), Err(1));
}

#[test]
fn empty_and_blank_texts_have_no_tokens() {
    assert_eq!(tokenize(&chars_of("")), Ok(Vec::new()));
    assert_eq!(tokenize(&chars_of(" \t\n ")), Ok(Vec::new()));
}

#[test]
fn character_classes_hold_what_they_name() {
    assert!(CharClass::Digit.contains('0'));
    assert!(CharClass::Digit.contains('9'));
    assert!(!CharClass::Digit.contains('a'));
    assert!(CharClass::WordChar.contains('_'));
    assert!(CharClass::WordChar.contains('Z'));
    assert!(CharClass::WordChar.contains('5'));
    assert!(!CharClass::WordChar.contains('-'));
    assert!(CharClass::Unquoted.contains('?'));
    assert!(!CharClass::Unquoted.contains('\''));
}
