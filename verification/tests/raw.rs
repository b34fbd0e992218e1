use ggbc::lex::raw::{RawToken, Tokens};

fn rust_kwords() -> Vec<Vec<u8>> {
    [
        "if", "else", "let", "loop", "fn", "->", ">=", "<=", "=>", "~=", "==", "::", "~", "&", "|",
        ";", "{", "}", ",", ".", ":", "=", "(", ")", "[", "]", "<", ">", "+", "-", "/",
    ]
    .iter()
    .map(|s| s.as_bytes().to_vec())
    .collect()
}

fn keyword(s: &str) -> RawToken<'_> {
    RawToken::Keyword(s.as_bytes())
}

fn ident(s: &str) -> RawToken<'_> {
    RawToken::Ident(s.as_bytes())
}

fn lit(s: &str) -> RawToken<'_> {
    RawToken::Lit(s.as_bytes())
}

#[test]
fn raw_lit() {
    let input = " \"hello, world\"\t42   \r\n\n";
    let mut tokens = Tokens::new(input, Vec::new());

    assert_eq!(Some(lit("\"hello, world\"")), tokens.next().map(|t| t.0));
    assert_eq!(Some(lit("42")), tokens.next().map(|t| t.0));
    assert_eq!(Some(RawToken::Eof), tokens.next().map(|t| t.0));
    assert_eq!(None, tokens.next().map(|t| t.0));
}

#[test]
fn raw_lit_numeric_hex() {
    let input = "42 0x42 0x123456789abcdef";
    let mut tokens = Tokens::new(input, Vec::new());

    assert_eq!(Some(lit("42")), tokens.next().map(|t| t.0));
    assert_eq!(Some(lit("0x42")), tokens.next().map(|t| t.0));
    assert_eq!(Some(lit("0x123456789abcdef")), tokens.next().map(|t| t.0));
    assert_eq!(Some(RawToken::Eof), tokens.next().map(|t| t.0));
    assert_eq!(None, tokens.next().map(|t| t.0));
}

#[test]
fn raw_match_longest_token() {
    let input = "=====";
    let mut tokens = Tokens::new(input, rust_kwords());

    assert_eq!(Some(keyword("==")), tokens.next().map(|t| t.0));
    assert_eq!(Some(keyword("==")), tokens.next().map(|t| t.0));
    assert_eq!(Some(keyword("=")), tokens.next().map(|t| t.0));
    assert_eq!(Some(RawToken::Eof), tokens.next().map(|t| t.0));
    assert_eq!(None, tokens.next().map(|t| t.0));
}

#[test]
fn raw_tokens_non_alphanumeric() {
    let input = "->>==>: ::;\n\t";
    let mut tokens = Tokens::new(input, rust_kwords());

    assert_eq!(Some(keyword("->")), tokens.next().map(|t| t.0));
    assert_eq!(Some(keyword(">=")), tokens.next().map(|t| t.0));
    assert_eq!(Some(keyword("=>")), tokens.next().map(|t| t.0));
    assert_eq!(Some(keyword(":")), tokens.next().map(|t| t.0));
    assert_eq!(Some(keyword("::")), tokens.next().map(|t| t.0));
    assert_eq!(Some(keyword(";")), tokens.next().map(|t| t.0));
    assert_eq!(Some(RawToken::Eof), tokens.next().map(|t| t.0));
    assert_eq!(None, tokens.next().map(|t| t.0));
}

#[test]
fn raw_tokens_alphanumeric() {
    let input = "if else let fn loop loops _if";
    let mut tokens = Tokens::new(input, rust_kwords());

    assert_eq!(Some(keyword("if")), tokens.next().map(|t| t.0));
    assert_eq!(Some(keyword("else")), tokens.next().map(|t| t.0));
    assert_eq!(Some(keyword("let")), tokens.next().map(|t| t.0));
    assert_eq!(Some(keyword("fn")), tokens.next().map(|t| t.0));
    assert_eq!(Some(keyword("loop")), tokens.next().map(|t| t.0));
    assert_eq!(Some(ident("loops")), tokens.next().map(|t| t.0));
    assert_eq!(Some(ident("_if")), tokens.next().map(|t| t.0));
    assert_eq!(Some(RawToken::Eof), tokens.next().map(|t| t.0));
    assert_eq!(None, tokens.next().map(|t| t.0));
}

#[test]
fn raw_test() {
    let input = "let foo\t=42; if foo == \"hello\" { } else { }";
    let mut tokens = Tokens::new(input, rust_kwords());

    assert_eq!(Some(keyword("let")), tokens.next().map(|t| t.0));
    assert_eq!(Some(ident("foo")), tokens.next().map(|t| t.0));
    assert_eq!(Some(keyword("=")), tokens.next().map(|t| t.0));
    assert_eq!(Some(lit("42")), tokens.next().map(|t| t.0));
    assert_eq!(Some(keyword(";")), tokens.next().map(|t| t.0));
    assert_eq!(Some(keyword("if")), tokens.next().map(|t| t.0));
    assert_eq!(Some(ident("foo")), tokens.next().map(|t| t.0));
    assert_eq!(Some(keyword("==")), tokens.next().map(|t| t.0));
    assert_eq!(Some(lit("\"hello\"")), tokens.next().map(|t| t.0));
    assert_eq!(Some(keyword("{")), tokens.next().map(|t| t.0));
    assert_eq!(Some(keyword("}")), tokens.next().map(|t| t.0));
    assert_eq!(Some(keyword("else")), tokens.next().map(|t| t.0));
    assert_eq!(Some(keyword("{")), tokens.next().map(|t| t.0));
    assert_eq!(Some(keyword("}")), tokens.next().map(|t| t.0));
    assert_eq!(Some(RawToken::Eof), tokens.next().map(|t| t.0));
    assert_eq!(None, tokens.next().map(|t| t.0));
}

#[test]
fn raw_unexpected_byte_and_comments() {
    let input = "// comment\n$ if";
    let mut tokens = Tokens::new(input, rust_kwords());
    let (tok, span) = tokens.next().unwrap();
    assert_eq!(RawToken::Unexpected(b'$'), tok);
    assert_eq!([1, 0], span.min);
    assert_eq!([1, 1], span.max);
    assert_eq!(Some(keyword("if")), tokens.next().map(|t| t.0));
}

#[test]
fn raw_unterminated_string_is_reported() {
    let input = "  \"open";
    let tokens = Tokens::new(input, Vec::new());
    assert!(!tokens.next_is_lexable());
}
