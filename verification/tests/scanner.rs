use lox::scanner::Scanner;
use lox::token::{Token, TokenKind};

fn scan(source: &str) -> Vec<Token> {
    Scanner::new(source.as_bytes()).scan_tokens()
}

fn kinds(source: &str) -> Vec<TokenKind> {
    scan(source).iter().map(|token| token.kind).collect()
}

fn lexemes(source: &str) -> Vec<String> {
    scan(source).iter().map(|token| String::from_utf8(token.lexeme.clone()).unwrap()).collect()
}

#[test]
fn scans_punctuators_and_operators() {
    assert_eq!(
        kinds("(){},.-+;/* ! != = == > >= < <="),
        vec![
            TokenKind::LParen,
            TokenKind::RParen,
            TokenKind::LBrace,
            TokenKind::RBrace,
            TokenKind::Comma,
            TokenKind::Dot,
            TokenKind::Minus,
            TokenKind::Plus,
            TokenKind::Semicolon,
            TokenKind::Slash,
            TokenKind::Star,
            TokenKind::Bang,
            TokenKind::BangEqual,
            TokenKind::Equal,
            TokenKind::EqualEqual,
            TokenKind::Greater,
            TokenKind::GreaterEqual,
            TokenKind::Less,
            TokenKind::LessEqual,
            TokenKind::Eof,
        ]
    );
}

#[test]
fn prefers_the_longer_operator() {
    assert_eq!(
        kinds("!==<=>==="),
        vec![
            TokenKind::BangEqual,
            TokenKind::Equal,
            TokenKind::LessEqual,
            TokenKind::GreaterEqual,
            TokenKind::EqualEqual,
            TokenKind::Eof,
        ]
    );
}

#[test]
fn scans_every_keyword() {
    assert_eq!(
        kinds("and class else false for fun if nil or print return super this true var while"),
        vec![
            TokenKind::And,
            TokenKind::Class,
            TokenKind::Else,
            TokenKind::False,
            TokenKind::For,
            TokenKind::Fun,
            TokenKind::If,
            TokenKind::Nil,
            TokenKind::Or,
            TokenKind::Print,
            TokenKind::Return,
            TokenKind::Super,
            TokenKind::This,
            TokenKind::True,
            TokenKind::Var,
            TokenKind::While,
            TokenKind::Eof,
        ]
    );
}

#[test]
fn a_keyword_inside_a_name_is_a_name() {
    assert_eq!(
        kinds("andy _or print_ Var variable x1 _"),
        vec![
            TokenKind::Identifier,
            TokenKind::Identifier,
            TokenKind::Identifier,
            TokenKind::Identifier,
            TokenKind::Identifier,
            TokenKind::Identifier,
            TokenKind::Identifier,
            TokenKind::Eof,
        ]
    );
    assert_eq!(lexemes("andy _or"), vec!["andy", "_or", ""]);
}

#[test]
fn scans_numbers_without_leading_or_trailing_dot() {
    assert_eq!(lexemes("12 3.25 4. .5 6.x"), vec!["12", "3.25", "4", ".", ".", "5", "6", ".", "x", ""]);
    assert_eq!(
        kinds("4. .5"),
        vec![
            TokenKind::Number,
            TokenKind::Dot,
            TokenKind::Dot,
            TokenKind::Number,
            TokenKind::Eof,
        ]
    );
}

#[test]
fn string_lexeme_includes_the_quotes() {
    let tokens = scan("\"hi there\" \"\"");
    assert_eq!(tokens[0].kind, TokenKind::String);
    assert_eq!(tokens[0].lexeme, b"\"hi there\"".to_vec());
    assert_eq!(tokens[1].kind, TokenKind::String);
    assert_eq!(tokens[1].lexeme, b"\"\"".to_vec());
    assert_eq!(tokens[2].kind, TokenKind::Eof);
}

#[test]
fn unterminated_string_is_an_error_token() {
    let tokens = scan("\"never\nclosed");
    assert_eq!(tokens[0].kind, TokenKind::Error);
    assert_eq!(tokens[0].lexeme, b"Unterminated string.".to_vec());
    assert_eq!(tokens[0].line, 2);
    assert_eq!(tokens[1].kind, TokenKind::Eof);
}

#[test]
fn other_bytes_are_error_tokens() {
    let tokens = scan("a # b");
    assert_eq!(tokens[1].kind, TokenKind::Error);
    assert_eq!(tokens[1].lexeme, b"Unexpected character.".to_vec());
    assert_eq!(tokens[2].kind, TokenKind::Identifier);
    let tokens = Scanner::new(&[0xc3, 0xa9]).scan_tokens();
    assert_eq!(tokens.len(), 3);
    assert_eq!(tokens[0].kind, TokenKind::Error);
    assert_eq!(tokens[1].kind, TokenKind::Error);
}

#[test]
fn lines_count_line_feeds() {
    let tokens = scan("a\nb // c\n\n  d \"x\ny\" e");
    let lines: Vec<usize> = tokens.iter().map(|token| token.line).collect();
    assert_eq!(lines, vec![1, 2, 4, 5, 5, 5]);
}

#[test]
fn a_slash_alone_is_no_comment() {
    assert_eq!(
        kinds("1 / 2 // 3 / 4\n/"),
        vec![
            TokenKind::Number,
            TokenKind::Slash,
            TokenKind::Number,
            TokenKind::Slash,
            TokenKind::Eof,
        ]
    );
}

#[test]
fn eof_is_returned_again_and_again() {
    let mut scanner = Scanner::new(b"x ");
    assert_eq!(scanner.scan_token().kind, TokenKind::Identifier);
    for _ in 0..3 {
        let token = scanner.scan_token();
        assert_eq!(token.kind, TokenKind::Eof);
        assert!(token.lexeme.is_empty());
        assert_eq!(token.line, 1);
    }
}

#[test]
fn empty_source_is_one_eof() {
    assert_eq!(kinds(""), vec![TokenKind::Eof]);
    assert_eq!(kinds(" \t\r\n// only a comment"), vec![TokenKind::Eof]);
}

#[test]
fn rescanning_the_lexemes_gives_the_same_tokens() {
    let source = "var a=1.5;{print a!=\"s t\";}// done\nfoo(bar)<=-x/y";
    let first = scan(source);
    let mut rebuilt = Vec::new();
    for token in &first {
        rebuilt.extend_from_slice(&token.lexeme);
        rebuilt.push(b' ');
    }
    let second = Scanner::new(&rebuilt).scan_tokens();
    assert_eq!(first.len(), second.len());
    for (a, b) in first.iter().zip(second.iter()) {
        assert_eq!(a.kind, b.kind);
        assert_eq!(a.lexeme, b.lexeme);
    }
}

#[test]
fn token_new_keeps_its_parts() {
    let token = Token::new(TokenKind::Identifier, b"name".to_vec(), 7);
    assert_eq!(token.kind, TokenKind::Identifier);
    assert_eq!(token.lexeme, b"name".to_vec());
    assert_eq!(token.line, 7);
    let copy = token.clone();
    assert_eq!(copy.kind, token.kind);
    assert_eq!(copy.lexeme, token.lexeme);
    assert_eq!(copy.line, token.line);
}
