use lish::lexer::ByteIter;
use lish::lexer::Lexer;
use lish::lexer::is_digit;
use lish::lexer::is_hex_digit;
use lish::lexer::is_letter;
use lish::lexer::is_symbol;
use lish::lexer::is_whitespace;
use lish::token::TokenType;

fn lex_text(src: &str) -> Vec<lish::token::Token> {
    let mut lex = Lexer::new(ByteIter::new(src.as_bytes().to_vec()), "<test>");
    lex.lex_all()
}

#[test]
fn classifies_bytes() {
    assert!(is_whitespace(b' ') && is_whitespace(b'\t') && is_whitespace(b'\n'));
    assert!(!is_whitespace(b'a'));
    assert!(is_letter(b'a') && is_letter(b'Z'));
    assert!(!is_letter(b'1'));
    assert!(is_digit(b'0') && is_digit(b'9'));
    assert!(!is_digit(b'a'));
    assert!(is_hex_digit(b'a') && is_hex_digit(b'F') && is_hex_digit(b'x'));
    assert!(!is_hex_digit(b'g'));
    assert!(is_symbol(b'-') && is_symbol(b'$') && is_symbol(b'5') && is_symbol(b'.'));
    assert!(!is_symbol(b'(') && !is_symbol(b'"'));
}

#[test]
fn lexes_simple_form() {
    let toks = lex_text("(pwd)");
    let kinds: Vec<TokenType> = toks.iter().map(|t| t.ttype).collect();
    assert_eq!(kinds, vec![TokenType::LPAREN, TokenType::SYMBOL, TokenType::RPAREN]);
    assert_eq!(toks[1].literal, "pwd");
}

#[test]
fn comment_then_form() {
    // a comment token is emitted, then the tokens of the form follow
    let toks = lex_text("; comment\n(PWD)");
    let kinds: Vec<TokenType> = toks.iter().map(|t| t.ttype).collect();
    assert_eq!(
        kinds,
        vec![TokenType::COMMENT, TokenType::LPAREN, TokenType::SYMBOL, TokenType::RPAREN]
    );
    assert_eq!(toks[0].literal, "comment");
    assert_eq!(toks[2].literal, "PWD");
}

#[test]
fn string_literals_run_to_the_closing_quote() {
    let toks = lex_text("(\"a b (c)\")");
    assert_eq!(toks[1].ttype, TokenType::STRING);
    assert_eq!(toks[1].literal, "a b (c)");
}

#[test]
fn numbers_take_hex_letters() {
    let toks = lex_text("(12 0x1f)");
    assert_eq!(toks[1].ttype, TokenType::NUMBER);
    assert_eq!(toks[1].literal, "12");
    assert_eq!(toks[2].ttype, TokenType::NUMBER);
    assert_eq!(toks[2].literal, "0x1f");
}

#[test]
fn carriage_returns_are_dropped() {
    let toks = lex_text("(a\r\nb)");
    let kinds: Vec<TokenType> = toks.iter().map(|t| t.ttype).collect();
    assert_eq!(
        kinds,
        vec![TokenType::LPAREN, TokenType::SYMBOL, TokenType::SYMBOL, TokenType::RPAREN]
    );
}

#[test]
fn quote_comma_and_illegal_tokens() {
    let toks = lex_text("' , #");
    let kinds: Vec<TokenType> = toks.iter().map(|t| t.ttype).collect();
    assert_eq!(kinds, vec![TokenType::QUOTE, TokenType::COMMA, TokenType::ILLEGAL]);
}

#[test]
fn comment_literal_is_trimmed() {
    let toks = lex_text(";   padded   ");
    assert_eq!(toks[0].ttype, TokenType::COMMENT);
    assert_eq!(toks[0].literal, "padded");
}

#[test]
fn lexing_stops_at_end_marker_byte() {
    let mut src = b"(a)".to_vec();
    src.push(0);
    src.extend_from_slice(b"(b)");
    let mut lex = Lexer::new(ByteIter::new(src), "<test>");
    let toks = lex.lex_all();
    assert_eq!(toks.len(), 3);
}

#[test]
fn tokens_carry_their_line_and_column() {
    let toks = lex_text("; comment\n(PWD)");
    assert_eq!((toks[0].line, toks[0].col), (1, 1));
    // the form after the comment sits on line 2
    assert_eq!((toks[1].line, toks[1].col), (2, 1));
    assert_eq!((toks[2].line, toks[2].col), (2, 2));
    assert_eq!((toks[3].line, toks[3].col), (2, 5));
}

#[test]
fn newlines_inside_strings_advance_the_line_count() {
    let toks = lex_text("(\"a\nb\" c)");
    assert_eq!(toks[1].literal, "a\nb");
    assert_eq!(toks[2].literal, "c");
    assert_eq!((toks[2].line, toks[2].col), (2, 4));
}
