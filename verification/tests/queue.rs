use lexer::{Lexer, Token, TokenTag};

#[test]
fn peek_returns_the_same_token_until_next_takes_it() {
    let mut lexer = Lexer::new("ab 12");
    assert_eq!(lexer.process(), Ok(()));
    let ab = Token { tag: TokenTag::Identifier, raw: "ab" };
    let twelve = Token { tag: TokenTag::Number, raw: "12" };
    assert_eq!(lexer.peek(), Some(&ab));
    assert_eq!(lexer.peek(), Some(&ab));
    assert_eq!(lexer.peek(), Some(&ab));
    assert_eq!(lexer.next(), Some(ab));
    assert_eq!(lexer.peek(), Some(&twelve));
    assert_eq!(lexer.peek(), Some(&twelve));
    assert_eq!(lexer.next(), Some(twelve));
    assert_eq!(lexer.peek(), None);
    assert_eq!(lexer.peek(), None);
    assert_eq!(lexer.next(), None);
    assert_eq!(lexer.next(), None);
}

#[test]
fn peek_and_next_leave_the_cursor_alone() {
    let mut lexer = Lexer::new("a b c");
    assert_eq!(lexer.process(), Ok(()));
    assert_eq!(lexer.cursor_position(), 5);
    let _ = lexer.peek();
    assert_eq!(lexer.cursor_position(), 5);
    let _ = lexer.next();
    assert_eq!(lexer.cursor_position(), 5);
    let _ = lexer.next();
    let _ = lexer.next();
    let _ = lexer.next();
    assert_eq!(lexer.cursor_position(), 5);
}

#[test]
fn tokens_come_out_in_source_order() {
    let mut lexer = Lexer::new("c 3 b 2 a 1");
    assert_eq!(lexer.process(), Ok(()));
    let mut raws = Vec::new();
    while let Some(token) = lexer.next() {
        raws.push(token.raw);
    }
    assert_eq!(raws, vec!["c", "3", "b", "2", "a", "1"]);
}

#[test]
fn nothing_is_pending_before_processing() {
    let mut lexer = Lexer::new("ab");
    assert_eq!(lexer.peek(), None);
    assert_eq!(lexer.next(), None);
    assert_eq!(lexer.process(), Ok(()));
    assert_eq!(lexer.next(), Some(Token { tag: TokenTag::Identifier, raw: "ab" }));
}
