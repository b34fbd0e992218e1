use ggbc::error::Error;
use ggbc::lex::{Token, TokenKind, Tokens};

fn expect(tokens: &mut Tokens<'_>, kind: TokenKind, text: Option<&str>) {
    match tokens.next() {
        Some(Ok(t)) if t.kind == kind => {
            if let Some(text) = text {
                assert_eq!(text.as_bytes(), t.text);
            }
        }
        token => panic!("Unexpected token: {:?}", token),
    }
}

fn span(tokens: &mut Tokens<'_>, min: [usize; 2], max: [usize; 2]) {
    let token: Token<'_> = tokens.next().unwrap().unwrap();
    assert_eq!(min, token.span.min);
    assert_eq!(max, token.span.max);
}

#[test]
fn lex_lit() {
    let input = " \"hello, world\"\t42   \r\n\n";
    let mut tokens = Tokens::new(input);

    expect(&mut tokens, TokenKind::Lit, Some("\"hello, world\""));
    expect(&mut tokens, TokenKind::Lit, Some("42"));
    expect(&mut tokens, TokenKind::Eof, None);
}

#[test]
fn lex_lit_numeric_hex() {
    let input = "42 0x42 0x123456789abcdef";
    let mut tokens = Tokens::new(input);

    expect(&mut tokens, TokenKind::Lit, Some("42"));
    expect(&mut tokens, TokenKind::Lit, Some("0x42"));
    expect(&mut tokens, TokenKind::Lit, Some("0x123456789abcdef"));
    expect(&mut tokens, TokenKind::Eof, None);
}

#[test]
fn lex_match_longest_token() {
    let input = "=====";
    let mut tokens = Tokens::new(input);

    expect(&mut tokens, TokenKind::Eq, None);
    expect(&mut tokens, TokenKind::Eq, None);
    expect(&mut tokens, TokenKind::Assign, None);
    expect(&mut tokens, TokenKind::Eof, None);
}

#[test]
fn lex_tokens_non_alphanumeric() {
    let input = ">=: ::;\n\t";
    let mut tokens = Tokens::new(input);

    expect(&mut tokens, TokenKind::GreaterEq, None);
    expect(&mut tokens, TokenKind::Colon, None);
    expect(&mut tokens, TokenKind::Square, None);
    expect(&mut tokens, TokenKind::SemiColon, None);
    expect(&mut tokens, TokenKind::Eof, None);
}

#[test]
fn lex_tokens_alphanumeric() {
    let input = "if else let fn loop loops _if";
    let mut tokens = Tokens::new(input);

    expect(&mut tokens, TokenKind::If, None);
    expect(&mut tokens, TokenKind::Else, None);
    expect(&mut tokens, TokenKind::Let, None);
    expect(&mut tokens, TokenKind::Fn, None);
    expect(&mut tokens, TokenKind::Loop, None);
    expect(&mut tokens, TokenKind::Ident, Some("loops"));
    expect(&mut tokens, TokenKind::Ident, Some("_if"));
    expect(&mut tokens, TokenKind::Eof, None);
}

#[test]
fn lex_test() {
    let input = "let foo\t=42; if foo == \"hello\" { } else { }";
    let mut tokens = Tokens::new(input);

    expect(&mut tokens, TokenKind::Let, None);
    expect(&mut tokens, TokenKind::Ident, Some("foo"));
    expect(&mut tokens, TokenKind::Assign, None);
    expect(&mut tokens, TokenKind::Lit, Some("42"));
    expect(&mut tokens, TokenKind::SemiColon, None);
    expect(&mut tokens, TokenKind::If, None);
    expect(&mut tokens, TokenKind::Ident, Some("foo"));
    expect(&mut tokens, TokenKind::Eq, None);
    expect(&mut tokens, TokenKind::Lit, Some("\"hello\""));
    expect(&mut tokens, TokenKind::LeftBracket, None);
    expect(&mut tokens, TokenKind::RightBracket, None);
    expect(&mut tokens, TokenKind::Else, None);
    expect(&mut tokens, TokenKind::LeftBracket, None);
    expect(&mut tokens, TokenKind::RightBracket, None);
    expect(&mut tokens, TokenKind::Eof, None);
}

#[test]
fn single_line_let() {
    let input = "let foo:u8 = 4 + 2";
    let mut tokens = Tokens::new(input);

    span(&mut tokens, [0, 0], [0, 3]); // let
    span(&mut tokens, [0, 4], [0, 7]); // foo
    span(&mut tokens, [0, 7], [0, 8]); // :
    span(&mut tokens, [0, 8], [0, 10]); // u8
    span(&mut tokens, [0, 11], [0, 12]); // =
    span(&mut tokens, [0, 13], [0, 14]); // 4
    span(&mut tokens, [0, 15], [0, 16]); // +
    span(&mut tokens, [0, 17], [0, 18]); // 2
}

#[test]
fn skip_whitespace() {
    let input = "    let\n\n\tfoo";
    let mut tokens = Tokens::new(input);

    span(&mut tokens, [0, 4], [0, 7]); // let
    span(&mut tokens, [2, 1], [2, 4]); // foo
}

#[test]
fn lex_errors_end_the_tokens() {
    let mut tokens = Tokens::new("let $");
    expect(&mut tokens, TokenKind::Let, None);
    match tokens.next() {
        Some(Err(Error::UnexpectedByte { byte, span })) => {
            assert_eq!(b'$', byte);
            assert_eq!([0, 4], span.min);
        }
        other => panic!("{:?}", other),
    }
    assert!(tokens.next().is_none());

    let mut tokens = Tokens::new("let \"open");
    expect(&mut tokens, TokenKind::Let, None);
    assert!(matches!(tokens.next(), Some(Err(Error::Eof))));
    assert!(tokens.next().is_none());
}

#[test]
fn lex_dead_asm_keywords() {
    // keywords mixing punctuation and letters never match as a whole
    let mut tokens = Tokens::new("%a .nop");
    assert!(matches!(tokens.next(), Some(Err(Error::UnexpectedByte { byte: b'%', .. }))));
    let mut tokens = Tokens::new(".nop");
    expect(&mut tokens, TokenKind::Dot, None);
    expect(&mut tokens, TokenKind::Ident, Some("nop"));
}

#[test]
fn tokenizing_is_deterministic() {
    let a = ggbc::lex::tokenize("let x :: u8 = 0x10; // done").unwrap();
    let b = ggbc::lex::tokenize("let x :: u8 = 0x10; // done").unwrap();
    assert_eq!(a, b);
    assert_eq!(8, a.len());
    assert_eq!(TokenKind::Eof, a[7].kind);
    let e1 = ggbc::lex::tokenize("let $ x").err();
    let e2 = ggbc::lex::tokenize("let $ x").err();
    assert_eq!(e1, e2);
    assert!(matches!(e1, Some(Error::UnexpectedByte { byte: b'$', .. })));
}
