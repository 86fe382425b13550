use recognizer::cursor::{Lexeme, TokenCursor};
use recognizer::parser::Token;

fn sample() -> Vec<Lexeme> {
    vec![
        Lexeme::Token(Token::Contact),
        Lexeme::Unknown,
        Lexeme::Token(Token::Number),
    ]
}

#[test]
fn cursor_hands_out_its_items_in_order_and_then_none() {
    let tokens = sample();
    let mut cursor = TokenCursor::new(&tokens);
    assert_eq!(cursor.next(), Some(Lexeme::Token(Token::Contact)));
    assert_eq!(cursor.next(), Some(Lexeme::Unknown));
    assert_eq!(cursor.next(), Some(Lexeme::Token(Token::Number)));
    assert_eq!(cursor.next(), None);
    assert_eq!(cursor.next(), None);
}

#[test]
fn cursor_over_nothing_hands_out_none() {
    let tokens: Vec<Lexeme> = Vec::new();
    let mut cursor = TokenCursor::new(&tokens);
    assert_eq!(cursor.next(), None);
}

#[test]
fn clones_move_independently() {
    let tokens = sample();
    let mut first = TokenCursor::new(&tokens);
    let mut second = first.clone();
    let mut from_first = Vec::new();
    for _ in 0..5 {
        from_first.push(first.next());
    }
    let mut from_second = Vec::new();
    for _ in 0..5 {
        from_second.push(second.next());
    }
    assert_eq!(from_first, from_second);
    assert_eq!(
        from_first,
        vec![
            Some(Lexeme::Token(Token::Contact)),
            Some(Lexeme::Unknown),
            Some(Lexeme::Token(Token::Number)),
            None,
            None,
        ]
    );
}

#[test]
fn clone_made_midway_goes_on_from_there() {
    let tokens = sample();
    let mut first = TokenCursor::new(&tokens);
    assert_eq!(first.next(), Some(Lexeme::Token(Token::Contact)));
    let mut second = first.clone();
    assert_eq!(first.next(), Some(Lexeme::Unknown));
    assert_eq!(first.next(), Some(Lexeme::Token(Token::Number)));
    assert_eq!(second.next(), Some(Lexeme::Unknown));
    assert_eq!(first.next(), None);
    assert_eq!(second.next(), Some(Lexeme::Token(Token::Number)));
    assert_eq!(second.next(), None);
}
