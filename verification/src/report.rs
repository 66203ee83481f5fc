//! Diagnostics: the lines that a compile error puts on the error output.

use vstd::prelude::*;
use vstd::string::StringSliceAdditionalSpecFns;
use crate::text::{append_bytes, append_decimal, copy_bytes, decimal};
use crate::token::{Token, TokenKind, TokenView};

verus! {

/// The diagnostic for `message` on line `line`, with `whence` saying where on
/// the line: `[line N] Error`, then `whence`, a colon, a space and the
/// message.
pub open spec fn report_text(line: nat, whence: Seq<u8>, message: Seq<u8>) -> Seq<u8> {
    "[line ".spec_bytes() + decimal(line) + "] Error".spec_bytes() + whence + ": ".spec_bytes()
        + message
}

/// Where a token stands, as a diagnostic says it: ` at end` for `Eof`, else
/// ` at '` and `'` around the token's text.
pub open spec fn whence_of(token: TokenView) -> Seq<u8> {
    if token.kind == TokenKind::Eof {
        " at end".spec_bytes()
    } else {
        " at '".spec_bytes() + token.lexeme + "'".spec_bytes()
    }
}

/// The diagnostic for `message` at `token`.
pub open spec fn token_report_text(token: TokenView, message: Seq<u8>) -> Seq<u8> {
    report_text(token.line, whence_of(token), message)
}

/// The diagnostic for `message` on line `line`, with `whence` saying where.
pub fn report(line: usize, whence: &[u8], message: &[u8]) -> (text: Vec<u8>)
    ensures
        text@ == report_text(line as nat, whence@, message@),
{
    let mut text = copy_bytes("[line ".as_bytes());
    append_decimal(&mut text, line);
    append_bytes(&mut text, "] Error".as_bytes());
    append_bytes(&mut text, whence);
    append_bytes(&mut text, ": ".as_bytes());
    append_bytes(&mut text, message);
    text
}

/// The diagnostic for `message` on line `line`, with no place on the line.
pub fn error(line: usize, message: &[u8]) -> (text: Vec<u8>)
    ensures
        text@ == report_text(line as nat, Seq::empty(), message@),
{
    let whence: Vec<u8> = Vec::new();
    report(line, whence.as_slice(), message)
}

/// The diagnostic for `message` at `token`.
pub fn error_at_token(token: &Token, message: &[u8]) -> (text: Vec<u8>)
    ensures
        text@ == token_report_text(token@, message@),
{
    if token.kind == TokenKind::Eof {
        report(token.line, " at end".as_bytes(), message)
    } else {
        let mut whence = copy_bytes(" at '".as_bytes());
        append_bytes(&mut whence, token.lexeme.as_slice());
        append_bytes(&mut whence, "'".as_bytes());
        report(token.line, whence.as_slice(), message)
    }
}

} // verus!
