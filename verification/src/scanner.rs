//! The scanner: source bytes in, one token at a time out.
//!
//! What the scanner returns is stated over the source as a sequence of bytes:
//! [`trivia_end`] says where the next token starts, [`lex`] says which kind it
//! is and where it ends, and [`next_token`] puts the two together.

use vstd::prelude::*;
use vstd::slice::slice_subrange;
use vstd::string::StringSliceAdditionalSpecFns;
use crate::text::{copy_bytes, same_bytes};
use crate::token::{Token, TokenKind, TokenView};

verus! {

pub const NEWLINE: u8 = 10;
pub const BANG: u8 = 33;
pub const QUOTE: u8 = 34;
pub const LPAREN: u8 = 40;
pub const RPAREN: u8 = 41;
pub const STAR: u8 = 42;
pub const PLUS: u8 = 43;
pub const COMMA: u8 = 44;
pub const MINUS: u8 = 45;
pub const DOT: u8 = 46;
pub const SLASH: u8 = 47;
pub const SEMICOLON: u8 = 59;
pub const LESS: u8 = 60;
pub const EQUAL: u8 = 61;
pub const GREATER: u8 = 62;
pub const LBRACE: u8 = 123;
pub const RBRACE: u8 = 125;

/// Space, tab, line feed, vertical tab, form feed and carriage return.
pub open spec fn is_space(c: u8) -> bool {
    c == 32 || (9 <= c && c <= 13)
}

pub open spec fn is_digit(c: u8) -> bool {
    48 <= c && c <= 57
}

/// An ASCII letter or the underscore.
pub open spec fn is_alpha(c: u8) -> bool {
    (65 <= c && c <= 90) || (97 <= c && c <= 122) || c == 95
}

/// How many of the first `n` bytes of `s` are line feeds.
pub open spec fn newlines(s: Seq<u8>, n: int) -> nat
    decreases n,
{
    if n <= 0 {
        0
    } else {
        newlines(s, n - 1) + if s[n - 1] == NEWLINE { 1nat } else { 0nat }
    }
}

/// Where the white space and `//` comments that begin at `i` end. With
/// `in_comment` set, `i` lies inside a comment, which runs up to the next
/// line feed.
pub open spec fn trivia_end(s: Seq<u8>, i: int, in_comment: bool) -> int
    decreases s.len() - i,
{
    if i < 0 || i >= s.len() {
        i
    } else if in_comment {
        trivia_end(s, i + 1, s[i] != NEWLINE)
    } else if is_space(s[i]) {
        trivia_end(s, i + 1, false)
    } else if s[i] == SLASH && i + 1 < s.len() && s[i + 1] == SLASH {
        trivia_end(s, i + 2, true)
    } else {
        i
    }
}

/// The end of the run of letters, digits and underscores that begins at `i`.
pub open spec fn name_end(s: Seq<u8>, i: int) -> int
    decreases s.len() - i,
{
    if 0 <= i < s.len() && (is_alpha(s[i]) || is_digit(s[i])) {
        name_end(s, i + 1)
    } else {
        i
    }
}

/// The end of the run of digits that begins at `i`.
pub open spec fn digits_end(s: Seq<u8>, i: int) -> int
    decreases s.len() - i,
{
    if 0 <= i < s.len() && is_digit(s[i]) {
        digits_end(s, i + 1)
    } else {
        i
    }
}

/// The end of the number literal that begins at `i`: digits, then, if a dot
/// and a digit follow, the dot and the digits after it.
pub open spec fn number_end(s: Seq<u8>, i: int) -> int {
    let whole = digits_end(s, i);
    if whole + 1 < s.len() && s[whole] == DOT && is_digit(s[whole + 1]) {
        digits_end(s, whole + 1)
    } else {
        whole
    }
}

/// The first position at or after `i` that holds a double quote, or the
/// length of `s` if there is none.
pub open spec fn quote_at(s: Seq<u8>, i: int) -> int
    decreases s.len() - i,
{
    if 0 <= i < s.len() && s[i] != QUOTE {
        quote_at(s, i + 1)
    } else {
        i
    }
}

/// The kind of a name: a keyword, or `Identifier`.
pub open spec fn name_kind(name: Seq<u8>) -> TokenKind {
    if name == "and".spec_bytes() {
        TokenKind::And
    } else if name == "class".spec_bytes() {
        TokenKind::Class
    } else if name == "else".spec_bytes() {
        TokenKind::Else
    } else if name == "false".spec_bytes() {
        TokenKind::False
    } else if name == "for".spec_bytes() {
        TokenKind::For
    } else if name == "fun".spec_bytes() {
        TokenKind::Fun
    } else if name == "if".spec_bytes() {
        TokenKind::If
    } else if name == "nil".spec_bytes() {
        TokenKind::Nil
    } else if name == "or".spec_bytes() {
        TokenKind::Or
    } else if name == "print".spec_bytes() {
        TokenKind::Print
    } else if name == "return".spec_bytes() {
        TokenKind::Return
    } else if name == "super".spec_bytes() {
        TokenKind::Super
    } else if name == "this".spec_bytes() {
        TokenKind::This
    } else if name == "true".spec_bytes() {
        TokenKind::True
    } else if name == "var".spec_bytes() {
        TokenKind::Var
    } else if name == "while".spec_bytes() {
        TokenKind::While
    } else {
        TokenKind::Identifier
    }
}

/// The kind of an operator that is one character, or two when `=` follows.
pub open spec fn operator_kind(c: u8, with_equal: bool) -> TokenKind {
    if c == BANG {
        if with_equal { TokenKind::BangEqual } else { TokenKind::Bang }
    } else if c == EQUAL {
        if with_equal { TokenKind::EqualEqual } else { TokenKind::Equal }
    } else if c == LESS {
        if with_equal { TokenKind::LessEqual } else { TokenKind::Less }
    } else {
        if with_equal { TokenKind::GreaterEqual } else { TokenKind::Greater }
    }
}

/// The kind of a punctuator of one character, if `c` is one.
pub open spec fn punctuator_kind(c: u8) -> Option<TokenKind> {
    if c == LPAREN {
        Some(TokenKind::LParen)
    } else if c == RPAREN {
        Some(TokenKind::RParen)
    } else if c == LBRACE {
        Some(TokenKind::LBrace)
    } else if c == RBRACE {
        Some(TokenKind::RBrace)
    } else if c == COMMA {
        Some(TokenKind::Comma)
    } else if c == DOT {
        Some(TokenKind::Dot)
    } else if c == MINUS {
        Some(TokenKind::Minus)
    } else if c == PLUS {
        Some(TokenKind::Plus)
    } else if c == SEMICOLON {
        Some(TokenKind::Semicolon)
    } else if c == STAR {
        Some(TokenKind::Star)
    } else if c == SLASH {
        Some(TokenKind::Slash)
    } else {
        None
    }
}

/// The kind of the token that begins at `p`, where no white space or comment
/// begins, and the position at which it ends.
pub open spec fn lex(s: Seq<u8>, p: int) -> (TokenKind, int) {
    if p < 0 || p >= s.len() {
        (TokenKind::Eof, p)
    } else if is_alpha(s[p]) {
        (name_kind(s.subrange(p, name_end(s, p + 1))), name_end(s, p + 1))
    } else if is_digit(s[p]) {
        (TokenKind::Number, number_end(s, p))
    } else if s[p] == BANG || s[p] == EQUAL || s[p] == LESS || s[p] == GREATER {
        if p + 1 < s.len() && s[p + 1] == EQUAL {
            (operator_kind(s[p], true), p + 2)
        } else {
            (operator_kind(s[p], false), p + 1)
        }
    } else if s[p] == QUOTE {
        if quote_at(s, p + 1) >= s.len() {
            (TokenKind::Error, s.len() as int)
        } else {
            (TokenKind::String, quote_at(s, p + 1) + 1)
        }
    } else {
        match punctuator_kind(s[p]) {
            Some(kind) => (kind, p + 1),
            None => (TokenKind::Error, p + 1),
        }
    }
}

/// The message of the `Error` token that begins at `p`.
pub open spec fn lex_message(s: Seq<u8>, p: int) -> Seq<u8> {
    if s[p] == QUOTE {
        "Unterminated string.".spec_bytes()
    } else {
        "Unexpected character.".spec_bytes()
    }
}

/// The token that a scan from position `i` returns.
pub open spec fn next_token(s: Seq<u8>, i: int) -> TokenView {
    let p = trivia_end(s, i, false);
    let (kind, end) = lex(s, p);
    TokenView {
        kind,
        lexeme: if kind == TokenKind::Error { lex_message(s, p) } else { s.subrange(p, end) },
        line: 1 + newlines(s, end),
    }
}

/// The position at which the token that a scan from `i` returns ends.
pub open spec fn next_end(s: Seq<u8>, i: int) -> int {
    lex(s, trivia_end(s, i, false)).1
}

pub proof fn lemma_trivia_end_bounds(s: Seq<u8>, i: int, in_comment: bool)
    requires
        0 <= i <= s.len(),
    ensures
        i <= trivia_end(s, i, in_comment) <= s.len(),
    decreases s.len() - i,
{
    if i < s.len() {
        if in_comment {
            lemma_trivia_end_bounds(s, i + 1, s[i] != NEWLINE);
        } else if is_space(s[i]) {
            lemma_trivia_end_bounds(s, i + 1, false);
        } else if s[i] == SLASH && i + 1 < s.len() && s[i + 1] == SLASH {
            lemma_trivia_end_bounds(s, i + 2, true);
        }
    }
}

pub proof fn lemma_name_end_bounds(s: Seq<u8>, i: int)
    requires
        0 <= i <= s.len(),
    ensures
        i <= name_end(s, i) <= s.len(),
    decreases s.len() - i,
{
    if i < s.len() && (is_alpha(s[i]) || is_digit(s[i])) {
        lemma_name_end_bounds(s, i + 1);
    }
}

pub proof fn lemma_digits_end_bounds(s: Seq<u8>, i: int)
    requires
        0 <= i <= s.len(),
    ensures
        i <= digits_end(s, i) <= s.len(),
    decreases s.len() - i,
{
    if i < s.len() && is_digit(s[i]) {
        lemma_digits_end_bounds(s, i + 1);
    }
}

pub proof fn lemma_quote_at_bounds(s: Seq<u8>, i: int)
    requires
        0 <= i <= s.len(),
    ensures
        i <= quote_at(s, i) <= s.len(),
    decreases s.len() - i,
{
    if i < s.len() && s[i] != QUOTE {
        lemma_quote_at_bounds(s, i + 1);
    }
}

/// A token that is not `Eof` is not empty, and no token runs past the end of
/// the source.
pub proof fn lemma_lex_bounds(s: Seq<u8>, p: int)
    requires
        0 <= p <= s.len(),
    ensures
        p <= lex(s, p).1 <= s.len(),
        lex(s, p).0 != TokenKind::Eof ==> p < lex(s, p).1,
        lex(s, p).0 == TokenKind::Eof <==> p == s.len(),
        lex(s, p).0 == TokenKind::String ==> p + 2 <= lex(s, p).1,
{
    if p < s.len() {
        lemma_name_end_bounds(s, p + 1);
        lemma_digits_end_bounds(s, p);
        let whole = digits_end(s, p);
        if whole + 1 <= s.len() {
            lemma_digits_end_bounds(s, whole + 1);
        }
        lemma_quote_at_bounds(s, p + 1);
    }
}

/// The number of line feeds among the first bytes grows with their number.
pub proof fn lemma_newlines_bound(s: Seq<u8>, n: int)
    requires
        0 <= n,
    ensures
        newlines(s, n) <= n,
    decreases n,
{
    if n > 0 {
        lemma_newlines_bound(s, n - 1);
    }
}

/// A scanner over a source text.
pub struct Scanner<'a> {
    pub source: &'a [u8],
    /// Where the token scanned last begins.
    pub start: usize,
    /// Where the next scan begins.
    pub current: usize,
    /// The line of the position `current`.
    pub line: usize,
}

impl<'a> Scanner<'a> {
    /// The positions lie inside the source and `line` is the line of `current`.
    pub open spec fn wf(&self) -> bool {
        &&& self.start <= self.current <= self.source@.len()
        &&& self.source@.len() < usize::MAX
        &&& self.line == 1 + newlines(self.source@, self.current as int)
    }

    pub fn new(source: &'a [u8]) -> (scanner: Scanner<'a>)
        requires
            source@.len() < usize::MAX,
        ensures
            scanner.wf(),
            scanner.source@ == source@,
            scanner.start == 0,
            scanner.current == 0,
    {
        Scanner { source, start: 0, current: 0, line: 1 }
    }

    fn at_end(&self) -> (end: bool)
        ensures
            end == (self.current >= self.source@.len()),
    {
        self.current >= self.source.len()
    }

    /// The byte at `current`, or 0 at the end of the source.
    fn peek(&self) -> (c: u8)
        ensures
            c == if self.current < self.source@.len() {
                self.source@[self.current as int]
            } else {
                0u8
            },
    {
        if self.current >= self.source.len() {
            0
        } else {
            self.source[self.current]
        }
    }

    /// The byte after the one at `current`, or 0 if there is none.
    fn peek_next(&self) -> (c: u8)
        requires
            self.wf(),
        ensures
            c == if self.current + 1 < self.source@.len() {
                self.source@[self.current + 1]
            } else {
                0u8
            },
    {
        if self.current + 1 >= self.source.len() {
            0
        } else {
            self.source[self.current + 1]
        }
    }

    /// Steps over one byte and returns it.
    fn advance(&mut self) -> (c: u8)
        requires
            old(self).wf(),
            old(self).current < old(self).source@.len(),
        ensures
            final(self).wf(),
            final(self).source == old(self).source,
            final(self).start == old(self).start,
            final(self).current == old(self).current + 1,
            c == old(self).source@[old(self).current as int],
    {
        let c = self.source[self.current];
        proof {
            lemma_newlines_bound(self.source@, self.current as int);
        }
        if c == NEWLINE {
            self.line += 1;
        }
        self.current += 1;
        c
    }

    /// Steps over the byte at `current` if it is `expected`.
    fn matches(&mut self, expected: u8) -> (matched: bool)
        requires
            old(self).wf(),
        ensures
            final(self).wf(),
            final(self).source == old(self).source,
            final(self).start == old(self).start,
            matched == (old(self).current < old(self).source@.len()
                && old(self).source@[old(self).current as int] == expected),
            final(self).current == old(self).current + if matched { 1int } else { 0int },
    {
        if self.at_end() || self.source[self.current] != expected {
            false
        } else {
            self.advance();
            true
        }
    }

    /// Steps over white space and comments.
    fn skip_whitespace(&mut self)
        requires
            old(self).wf(),
        ensures
            final(self).wf(),
            final(self).source == old(self).source,
            final(self).current == trivia_end(old(self).source@, old(self).current as int, false),
            final(self).start == final(self).current,
    {
        let mut in_comment = false;
        loop
            invariant
                self.wf(),
                self.source == old(self).source,
                trivia_end(self.source@, self.current as int, in_comment) == trivia_end(
                    old(self).source@,
                    old(self).current as int,
                    false,
                ),
            ensures
                self.wf(),
                self.source == old(self).source,
                self.current == trivia_end(old(self).source@, old(self).current as int, false),
            decreases self.source@.len() - self.current,
        {
            if self.at_end() {
                break;
            }
            let c = self.peek();
            if in_comment {
                in_comment = c != NEWLINE;
                self.advance();
            } else if c == 32 || (9 <= c && c <= 13) {
                self.advance();
            } else if c == SLASH && self.peek_next() == SLASH {
                self.advance();
                self.advance();
                in_comment = true;
            } else {
                break;
            }
        }
        self.start = self.current;
    }

    /// The token of kind `kind` whose text runs from `start` to `current`.
    fn make_token(&self, kind: TokenKind) -> (token: Token)
        requires
            self.wf(),
        ensures
            token@ == (TokenView {
                kind,
                lexeme: self.source@.subrange(self.start as int, self.current as int),
                line: self.line as nat,
            }),
    {
        let text = slice_subrange(self.source, self.start, self.current);
        Token::new(kind, copy_bytes(text), self.line)
    }

    /// The `Error` token that carries `message`.
    fn error_token(&self, message: &str) -> (token: Token)
        ensures
            token@ == (TokenView {
                kind: TokenKind::Error,
                lexeme: message.spec_bytes(),
                line: self.line as nat,
            }),
    {
        Token::new(TokenKind::Error, copy_bytes(message.as_bytes()), self.line)
    }

    /// Scans the rest of a name whose first character has been stepped over.
    fn identifier(&mut self) -> (token: Token)
        requires
            old(self).wf(),
            old(self).current == old(self).start + 1,
        ensures
            final(self).wf(),
            final(self).source == old(self).source,
            final(self).start == old(self).start,
            final(self).current == name_end(old(self).source@, old(self).current as int),
            token@ == (TokenView {
                kind: name_kind(
                    old(self).source@.subrange(old(self).start as int, final(self).current as int),
                ),
                lexeme: old(self).source@.subrange(
                    old(self).start as int,
                    final(self).current as int,
                ),
                line: final(self).line as nat,
            }),
    {
        loop
            invariant
                self.wf(),
                self.source == old(self).source,
                self.start == old(self).start,
                self.start < self.current,
                name_end(self.source@, self.current as int) == name_end(
                    old(self).source@,
                    old(self).current as int,
                ),
            ensures
                self.wf(),
                self.source == old(self).source,
                self.start == old(self).start,
                self.start < self.current,
                self.current == name_end(old(self).source@, old(self).current as int),
            decreases self.source@.len() - self.current,
        {
            if self.at_end() {
                break;
            }
            let c = self.peek();
            if (65 <= c && c <= 90) || (97 <= c && c <= 122) || c == 95 || (48 <= c && c <= 57) {
                self.advance();
            } else {
                break;
            }
        }
        let kind = name_kind_of(slice_subrange(self.source, self.start, self.current));
        self.make_token(kind)
    }

    /// Steps over a run of digits.
    fn digits(&mut self)
        requires
            old(self).wf(),
        ensures
            final(self).wf(),
            final(self).source == old(self).source,
            final(self).start == old(self).start,
            final(self).current == digits_end(old(self).source@, old(self).current as int),
    {
        loop
            invariant
                self.wf(),
                self.source == old(self).source,
                self.start == old(self).start,
                digits_end(self.source@, self.current as int) == digits_end(
                    old(self).source@,
                    old(self).current as int,
                ),
            ensures
                self.wf(),
                self.source == old(self).source,
                self.start == old(self).start,
                self.current == digits_end(old(self).source@, old(self).current as int),
            decreases self.source@.len() - self.current,
        {
            if self.at_end() {
                break;
            }
            let c = self.peek();
            if 48 <= c && c <= 57 {
                self.advance();
            } else {
                break;
            }
        }
    }

    /// Scans the rest of a number literal whose first digit has been stepped
    /// over.
    fn number(&mut self) -> (token: Token)
        requires
            old(self).wf(),
            old(self).current == old(self).start + 1,
            is_digit(old(self).source@[old(self).start as int]),
        ensures
            final(self).wf(),
            final(self).source == old(self).source,
            final(self).start == old(self).start,
            final(self).current == number_end(old(self).source@, old(self).start as int),
            token@ == (TokenView {
                kind: TokenKind::Number,
                lexeme: old(self).source@.subrange(
                    old(self).start as int,
                    final(self).current as int,
                ),
                line: final(self).line as nat,
            }),
    {
        self.digits();
        let next = self.peek_next();
        if self.peek() == DOT && 48 <= next && next <= 57 {
            self.advance();
            self.digits();
        }
        self.make_token(TokenKind::Number)
    }

    /// Scans the rest of a string literal whose opening quote has been
    /// stepped over.
    fn string(&mut self) -> (token: Token)
        requires
            old(self).wf(),
            old(self).current == old(self).start + 1,
            old(self).source@[old(self).start as int] == QUOTE,
        ensures
            final(self).wf(),
            final(self).source == old(self).source,
            final(self).start == old(self).start,
            (final(self).current as int, token@) == ({
                let s = old(self).source@;
                let p = old(self).start as int;
                (lex(s, p).1, TokenView {
                    kind: lex(s, p).0,
                    lexeme: if lex(s, p).0 == TokenKind::Error {
                        lex_message(s, p)
                    } else {
                        s.subrange(p, lex(s, p).1)
                    },
                    line: final(self).line as nat,
                })
            }),
    {
        loop
            invariant
                self.wf(),
                self.source == old(self).source,
                self.start == old(self).start,
                self.start < self.current,
                quote_at(self.source@, self.current as int) == quote_at(
                    old(self).source@,
                    old(self).current as int,
                ),
            ensures
                self.wf(),
                self.source == old(self).source,
                self.start == old(self).start,
                self.start < self.current,
                self.current == quote_at(old(self).source@, old(self).current as int),
            decreases self.source@.len() - self.current,
        {
            if self.at_end() || self.peek() == QUOTE {
                break;
            }
            self.advance();
        }
        if self.at_end() {
            return self.error_token("Unterminated string.");
        }
        self.advance();
        self.make_token(TokenKind::String)
    }

    /// Scans the next token.
    pub fn scan_token(&mut self) -> (token: Token)
        requires
            old(self).wf(),
        ensures
            final(self).wf(),
            final(self).source == old(self).source,
            token@ == next_token(old(self).source@, old(self).current as int),
            final(self).start == trivia_end(old(self).source@, old(self).current as int, false),
            final(self).current == next_end(old(self).source@, old(self).current as int),
    {
        self.skip_whitespace();
        if self.at_end() {
            return self.make_token(TokenKind::Eof);
        }
        let ghost s = self.source@;
        let ghost p = self.current as int;
        let c = self.advance();
        if (65 <= c && c <= 90) || (97 <= c && c <= 122) || c == 95 {
            return self.identifier();
        }
        if 48 <= c && c <= 57 {
            proof {
                lemma_digits_end_bounds(s, p);
            }
            return self.number();
        }
        if c == BANG {
            let kind = if self.matches(EQUAL) { TokenKind::BangEqual } else { TokenKind::Bang };
            return self.make_token(kind);
        }
        if c == EQUAL {
            let kind = if self.matches(EQUAL) { TokenKind::EqualEqual } else { TokenKind::Equal };
            return self.make_token(kind);
        }
        if c == LESS {
            let kind = if self.matches(EQUAL) { TokenKind::LessEqual } else { TokenKind::Less };
            return self.make_token(kind);
        }
        if c == GREATER {
            let kind = if self.matches(EQUAL) {
                TokenKind::GreaterEqual
            } else {
                TokenKind::Greater
            };
            return self.make_token(kind);
        }
        if c == QUOTE {
            return self.string();
        }
        match punctuator(c) {
            Some(kind) => self.make_token(kind),
            None => self.error_token("Unexpected character."),
        }
    }

    /// Scans the whole source: every token up to and including `Eof`.
    pub fn scan_tokens(&mut self) -> (tokens: Vec<Token>)
        requires
            old(self).wf(),
        ensures
            final(self).wf(),
            final(self).source == old(self).source,
            final(self).current == old(self).source@.len(),
            tokens@.map_values(|t: Token| t@) == tokens_from(
                old(self).source@,
                old(self).current as int,
            ),
    {
        let mut tokens: Vec<Token> = Vec::new();
        let ghost s = self.source@;
        loop
            invariant_except_break
                tokens@.map_values(|t: Token| t@) + tokens_from(s, self.current as int)
                    == tokens_from(s, old(self).current as int),
            invariant
                self.wf(),
                self.source == old(self).source,
                s == self.source@,
                old(self).wf(),
            ensures
                self.wf(),
                self.source == old(self).source,
                self.current == s.len(),
                tokens@.map_values(|t: Token| t@) == tokens_from(s, old(self).current as int),
            decreases s.len() - self.current,
        {
            let ghost before = self.current as int;
            let ghost seen = tokens@.map_values(|t: Token| t@);
            proof {
                lemma_trivia_end_bounds(s, before, false);
                lemma_lex_bounds(s, trivia_end(s, before, false));
            }
            let token = self.scan_token();
            let done = token.kind == TokenKind::Eof;
            tokens.push(token);
            assert(tokens@.map_values(|t: Token| t@) =~= seen.push(next_token(s, before)));
            if done {
                assert(tokens_from(s, before) =~= seq![next_token(s, before)]);
                assert(seen.push(next_token(s, before)) =~= seen + seq![next_token(s, before)]);
                break;
            }
            assert(tokens_from(s, before) =~= seq![next_token(s, before)] + tokens_from(
                s,
                self.current as int,
            ));
            assert(seen.push(next_token(s, before)) + tokens_from(s, self.current as int) =~= seen
                + (seq![next_token(s, before)] + tokens_from(s, self.current as int)));
        }
        tokens
    }
}

/// Every token that scanning from position `i` returns, in order, with the
/// closing `Eof`.
pub open spec fn tokens_from(s: Seq<u8>, i: int) -> Seq<TokenView>
    decreases s.len() - i,
    when 0 <= i <= s.len()
    via tokens_from_terminates
{
    if next_token(s, i).kind == TokenKind::Eof {
        seq![next_token(s, i)]
    } else {
        seq![next_token(s, i)] + tokens_from(s, next_end(s, i))
    }
}

#[via_fn]
proof fn tokens_from_terminates(s: Seq<u8>, i: int) {
    lemma_trivia_end_bounds(s, i, false);
    lemma_lex_bounds(s, trivia_end(s, i, false));
}

/// The keyword that `name` spells, or `Identifier`.
fn name_kind_of(name: &[u8]) -> (kind: TokenKind)
    ensures
        kind == name_kind(name@),
{
    if same_bytes(name, "and".as_bytes()) {
        TokenKind::And
    } else if same_bytes(name, "class".as_bytes()) {
        TokenKind::Class
    } else if same_bytes(name, "else".as_bytes()) {
        TokenKind::Else
    } else if same_bytes(name, "false".as_bytes()) {
        TokenKind::False
    } else if same_bytes(name, "for".as_bytes()) {
        TokenKind::For
    } else if same_bytes(name, "fun".as_bytes()) {
        TokenKind::Fun
    } else if same_bytes(name, "if".as_bytes()) {
        TokenKind::If
    } else if same_bytes(name, "nil".as_bytes()) {
        TokenKind::Nil
    } else if same_bytes(name, "or".as_bytes()) {
        TokenKind::Or
    } else if same_bytes(name, "print".as_bytes()) {
        TokenKind::Print
    } else if same_bytes(name, "return".as_bytes()) {
        TokenKind::Return
    } else if same_bytes(name, "super".as_bytes()) {
        TokenKind::Super
    } else if same_bytes(name, "this".as_bytes()) {
        TokenKind::This
    } else if same_bytes(name, "true".as_bytes()) {
        TokenKind::True
    } else if same_bytes(name, "var".as_bytes()) {
        TokenKind::Var
    } else if same_bytes(name, "while".as_bytes()) {
        TokenKind::While
    } else {
        TokenKind::Identifier
    }
}

/// The punctuator that the single character `c` is, if it is one.
fn punctuator(c: u8) -> (kind: Option<TokenKind>)
    ensures
        kind == punctuator_kind(c),
{
    if c == LPAREN {
        Some(TokenKind::LParen)
    } else if c == RPAREN {
        Some(TokenKind::RParen)
    } else if c == LBRACE {
        Some(TokenKind::LBrace)
    } else if c == RBRACE {
        Some(TokenKind::RBrace)
    } else if c == COMMA {
        Some(TokenKind::Comma)
    } else if c == DOT {
        Some(TokenKind::Dot)
    } else if c == MINUS {
        Some(TokenKind::Minus)
    } else if c == PLUS {
        Some(TokenKind::Plus)
    } else if c == SEMICOLON {
        Some(TokenKind::Semicolon)
    } else if c == STAR {
        Some(TokenKind::Star)
    } else if c == SLASH {
        Some(TokenKind::Slash)
    } else {
        None
    }
}

} // verus!
