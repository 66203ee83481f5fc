//! The compiler: one pass over the tokens, straight to bytecode.
//!
//! Expressions are parsed by precedence climbing; [`rule_of`] is the table
//! that drives it. Local variables live on the machine's stack, and the
//! compiler keeps their names in step with the stack it predicts: as long as
//! no error has been reported, the code emitted so far can run from an empty
//! stack (see [`crate::chunk::walk`]) and leaves as many values as
//! [`Compiler::depth`] says.

use vstd::prelude::*;
use vstd::slice::slice_subrange;
use vstd::string::StringSliceAdditionalSpecFns;
use crate::chunk::{
    admits, framed, lemma_decode_op_byte, lemma_framed_push, lemma_walk_deeper, lemma_walk_extends,
    lemma_walk_join, lemma_walk_nonnegative, op_byte, operand_count, pops, pushes, walk, Chunk,
    ChunkView, Constant, ConstantView, OpCode,
};
use crate::model::{compilation, initial, no_token, CompilerView};
use crate::report::{error, error_at_token, report_text, token_report_text};
use crate::scanner::{
    lemma_lex_bounds, lemma_trivia_end_bounds, next_end, next_token, trivia_end, Scanner,
};
use crate::text::{copy_bytes, same_bytes};
use crate::token::{Token, TokenKind, TokenView};

verus! {

/// How tightly an operator binds, from loosest to tightest.
#[derive(Clone, Copy, Debug, PartialEq, Eq, Hash, Structural)]
pub enum Precedence {
    /// Binds nothing: the precedence of a token that is no infix operator.
    Lowest,
    Assignment,
    Or,
    And,
    Equality,
    Comparison,
    Term,
    Factor,
    Unary,
    Call,
    Primary,
}

/// The place of a precedence on the ladder, from 0 for `Lowest` to 10 for
/// `Primary`.
pub open spec fn level_of(precedence: Precedence) -> int {
    match precedence {
        Precedence::Lowest => 0,
        Precedence::Assignment => 1,
        Precedence::Or => 2,
        Precedence::And => 3,
        Precedence::Equality => 4,
        Precedence::Comparison => 5,
        Precedence::Term => 6,
        Precedence::Factor => 7,
        Precedence::Unary => 8,
        Precedence::Call => 9,
        Precedence::Primary => 10,
    }
}

/// The precedence one step up the ladder from `precedence`; `Primary`, the
/// top, for `Primary`.
pub open spec fn higher(precedence: Precedence) -> Precedence {
    match precedence {
        Precedence::Lowest => Precedence::Assignment,
        Precedence::Assignment => Precedence::Or,
        Precedence::Or => Precedence::And,
        Precedence::And => Precedence::Equality,
        Precedence::Equality => Precedence::Comparison,
        Precedence::Comparison => Precedence::Term,
        Precedence::Term => Precedence::Factor,
        Precedence::Factor => Precedence::Unary,
        Precedence::Unary => Precedence::Call,
        _ => Precedence::Primary,
    }
}

impl Precedence {
    /// The place of the precedence on the ladder.
    pub fn level(self) -> (level: u8)
        ensures
            level == level_of(self),
    {
        match self {
            Precedence::Lowest => 0,
            Precedence::Assignment => 1,
            Precedence::Or => 2,
            Precedence::And => 3,
            Precedence::Equality => 4,
            Precedence::Comparison => 5,
            Precedence::Term => 6,
            Precedence::Factor => 7,
            Precedence::Unary => 8,
            Precedence::Call => 9,
            Precedence::Primary => 10,
        }
    }

    /// The precedence one step up the ladder.
    pub fn next(self) -> (next: Precedence)
        requires
            self != Precedence::Primary,
        ensures
            next == higher(self),
            level_of(next) == level_of(self) + 1,
    {
        match self {
            Precedence::Lowest => Precedence::Assignment,
            Precedence::Assignment => Precedence::Or,
            Precedence::Or => Precedence::And,
            Precedence::And => Precedence::Equality,
            Precedence::Equality => Precedence::Comparison,
            Precedence::Comparison => Precedence::Term,
            Precedence::Term => Precedence::Factor,
            Precedence::Factor => Precedence::Unary,
            Precedence::Unary => Precedence::Call,
            _ => Precedence::Primary,
        }
    }
}

/// The ways to parse what a token begins or continues.
#[derive(Clone, Copy, Debug, PartialEq, Eq, Hash, Structural)]
pub enum ParseFn {
    Grouping,
    Unary,
    Binary,
    Variable,
    String,
    Number,
    Literal,
}

/// What the parser does with a token: how to parse an expression that begins
/// with it, how to parse one that it continues, and how tightly it then
/// binds.
#[derive(Clone, Copy, Debug, PartialEq, Eq, Hash, Structural)]
pub struct ParseRule {
    pub prefix: Option<ParseFn>,
    pub infix: Option<ParseFn>,
    pub precedence: Precedence,
}

/// How to parse an expression that begins with a token of kind `kind`.
pub open spec fn prefix_of(kind: TokenKind) -> Option<ParseFn> {
    match kind {
        TokenKind::LParen => Some(ParseFn::Grouping),
        TokenKind::Minus | TokenKind::Bang => Some(ParseFn::Unary),
        TokenKind::Identifier => Some(ParseFn::Variable),
        TokenKind::String => Some(ParseFn::String),
        TokenKind::Number => Some(ParseFn::Number),
        TokenKind::False | TokenKind::True | TokenKind::Nil => Some(ParseFn::Literal),
        _ => None,
    }
}

/// How tightly a token of kind `kind` binds as an infix operator.
pub open spec fn precedence_of(kind: TokenKind) -> Precedence {
    match kind {
        TokenKind::BangEqual | TokenKind::EqualEqual => Precedence::Equality,
        TokenKind::Greater
        | TokenKind::GreaterEqual
        | TokenKind::Less
        | TokenKind::LessEqual => Precedence::Comparison,
        TokenKind::Minus | TokenKind::Plus => Precedence::Term,
        TokenKind::Slash | TokenKind::Star => Precedence::Factor,
        _ => Precedence::Lowest,
    }
}

/// The rule for tokens of kind `kind`. The infix operators are the tokens
/// that bind at all, and all of them are binary.
pub open spec fn rule_of(kind: TokenKind) -> ParseRule {
    ParseRule {
        prefix: prefix_of(kind),
        infix: if precedence_of(kind) == Precedence::Lowest {
            None
        } else {
            Some(ParseFn::Binary)
        },
        precedence: precedence_of(kind),
    }
}

/// The rule for tokens of kind `kind`.
pub fn get_rule(kind: TokenKind) -> (rule: ParseRule)
    ensures
        rule == rule_of(kind),
{
    match kind {
        TokenKind::LParen => ParseRule {
            prefix: Some(ParseFn::Grouping),
            infix: None,
            precedence: Precedence::Lowest,
        },
        TokenKind::Minus => ParseRule {
            prefix: Some(ParseFn::Unary),
            infix: Some(ParseFn::Binary),
            precedence: Precedence::Term,
        },
        TokenKind::Plus => ParseRule {
            prefix: None,
            infix: Some(ParseFn::Binary),
            precedence: Precedence::Term,
        },
        TokenKind::Slash | TokenKind::Star => ParseRule {
            prefix: None,
            infix: Some(ParseFn::Binary),
            precedence: Precedence::Factor,
        },
        TokenKind::Bang => ParseRule {
            prefix: Some(ParseFn::Unary),
            infix: None,
            precedence: Precedence::Lowest,
        },
        TokenKind::BangEqual | TokenKind::EqualEqual => ParseRule {
            prefix: None,
            infix: Some(ParseFn::Binary),
            precedence: Precedence::Equality,
        },
        TokenKind::Less
        | TokenKind::LessEqual
        | TokenKind::Greater
        | TokenKind::GreaterEqual => ParseRule {
            prefix: None,
            infix: Some(ParseFn::Binary),
            precedence: Precedence::Comparison,
        },
        TokenKind::Identifier => ParseRule {
            prefix: Some(ParseFn::Variable),
            infix: None,
            precedence: Precedence::Lowest,
        },
        TokenKind::String => ParseRule {
            prefix: Some(ParseFn::String),
            infix: None,
            precedence: Precedence::Lowest,
        },
        TokenKind::Number => ParseRule {
            prefix: Some(ParseFn::Number),
            infix: None,
            precedence: Precedence::Lowest,
        },
        TokenKind::False | TokenKind::Nil | TokenKind::True => ParseRule {
            prefix: Some(ParseFn::Literal),
            infix: None,
            precedence: Precedence::Lowest,
        },
        TokenKind::RParen
        | TokenKind::LBrace
        | TokenKind::RBrace
        | TokenKind::Comma
        | TokenKind::Dot
        | TokenKind::Semicolon
        | TokenKind::Equal
        | TokenKind::And
        | TokenKind::Class
        | TokenKind::Else
        | TokenKind::For
        | TokenKind::Fun
        | TokenKind::If
        | TokenKind::Or
        | TokenKind::Print
        | TokenKind::Return
        | TokenKind::Super
        | TokenKind::This
        | TokenKind::Var
        | TokenKind::While
        | TokenKind::Error
        | TokenKind::Eof => ParseRule { prefix: None, infix: None, precedence: Precedence::Lowest },
    }
}

/// The most local variables that can be in scope at once.
pub const MAX_LOCALS: usize = 256;

/// The depth of a local variable that is declared and not yet defined: its
/// initializer is still being compiled.
pub const UNDEFINED: isize = -1;

/// A local variable: its name, and how many blocks enclose its declaration.
/// Its index among the locals is its slot on the machine's stack.
#[derive(Debug)]
pub struct Local {
    pub name: Token,
    pub depth: isize,
}

/// The mathematical value of a [`Local`].
pub struct LocalView {
    pub name: TokenView,
    pub depth: int,
}

impl View for Local {
    type V = LocalView;

    open spec fn view(&self) -> LocalView {
        LocalView { name: self.name@, depth: self.depth as int }
    }
}

/// The state of the parser: the token in hand and the one before it, the
/// error flags, the scanner, and what is being written: the chunk and the
/// diagnostics.
pub struct Parser<'a> {
    pub current: Token,
    pub previous: Token,
    /// Set by every diagnostic, never cleared.
    pub had_error: bool,
    /// Set by a diagnostic, cleared at the next statement boundary; while it
    /// is set no diagnostic is reported.
    pub panic_mode: bool,
    pub scanner: Scanner<'a>,
    pub chunk: Chunk,
    /// The diagnostics reported so far, one line each.
    pub errors: Vec<Vec<u8>>,
}

/// The compiler: the parser, the local variables in scope, innermost last,
/// and the number of blocks that enclose the current position.
pub struct Compiler<'a> {
    pub locals: Vec<Local>,
    pub scope_depth: usize,
    pub parser: Parser<'a>,
    /// The length that the chunk's code had when this compilation began.
    pub base: Ghost<int>,
}

/// The position from which a scan returns the first token at or after `i`
/// that is no `Error`.
pub open spec fn skip_errors(s: Seq<u8>, i: int) -> int
    decreases s.len() - i,
    when 0 <= i <= s.len()
    via skip_errors_terminates
{
    if next_token(s, i).kind == TokenKind::Error {
        skip_errors(s, next_end(s, i))
    } else {
        i
    }
}

#[via_fn]
proof fn skip_errors_terminates(s: Seq<u8>, i: int) {
    lemma_trivia_end_bounds(s, i, false);
    lemma_lex_bounds(s, trivia_end(s, i, false));
}

/// A string token holds at least its two quotes.
pub open spec fn token_ok(token: TokenView) -> bool {
    token.kind == TokenKind::String ==> token.lexeme.len() >= 2
}

/// The text of a diagnostic at `token`. The message of a lexical error
/// stands alone; any other is preceded by the token's place.
pub open spec fn diagnostic(token: TokenView, message: Seq<u8>) -> Seq<u8> {
    if token.kind == TokenKind::Error {
        report_text(token.line, Seq::empty(), message)
    } else {
        token_report_text(token, message)
    }
}

/// The index of the innermost defined local among the first `n` that is
/// named `name`, or -1 if there is none.
pub open spec fn resolved(locals: Seq<LocalView>, name: Seq<u8>, n: int) -> int
    decreases n,
{
    if n <= 0 {
        -1
    } else if locals[n - 1].depth != UNDEFINED && locals[n - 1].name.lexeme == name {
        n - 1
    } else {
        resolved(locals, name, n - 1)
    }
}

/// How many of the first `n` locals stay when the blocks deeper than `depth`
/// are left: the locals go from the innermost outwards, as long as they were
/// declared deeper than `depth`.
pub open spec fn kept(locals: Seq<LocalView>, depth: int, n: int) -> int
    decreases n,
{
    if n > 0 && locals[n - 1].depth > depth {
        kept(locals, depth, n - 1)
    } else {
        n
    }
}

/// The chunk with `count` more `Pop` instructions, all from line `line`.
pub open spec fn with_pops(chunk: ChunkView, count: int, line: usize) -> ChunkView
    decreases count,
{
    if count <= 0 {
        chunk
    } else {
        with_pops(chunk, count - 1, line).write(op_byte(OpCode::Pop), line)
    }
}

/// Whether a local named `name` is declared in the block at depth `depth`.
pub open spec fn declared_in(locals: Seq<LocalView>, name: Seq<u8>, depth: int) -> bool {
    exists|i: int|
        0 <= i < locals.len() && (#[trigger] locals[i]).depth == depth && locals[i].name.lexeme
            == name
}

/// The locals in scope are sound for a position inside `scope_depth` blocks:
/// there are at most 256; only the innermost can be undefined; the defined
/// ones were declared inside at least one and at most `scope_depth` blocks,
/// an outer one before an inner one; and no block declares a name twice.
pub open spec fn locals_ok(locals: Seq<LocalView>, scope_depth: int) -> bool {
    &&& locals.len() <= MAX_LOCALS
    &&& forall|i: int|
        0 <= i < locals.len() ==> {
            &&& (#[trigger] locals[i]).depth == UNDEFINED || 1 <= locals[i].depth <= scope_depth
            &&& locals[i].depth == UNDEFINED ==> i == locals.len() - 1
        }
    &&& forall|i: int, j: int|
        0 <= i < j < locals.len() && (#[trigger] locals[j]).depth != UNDEFINED ==> {
            &&& (#[trigger] locals[i]).depth <= locals[j].depth
            &&& !(locals[i].depth == locals[j].depth && locals[i].name.lexeme
                == locals[j].name.lexeme)
        }
    &&& forall|i: int|
        0 <= i < locals.len() - 1 && locals.last().depth == UNDEFINED ==> !((
        #[trigger] locals[i]).depth == scope_depth && locals[i].name.lexeme
            == locals.last().name.lexeme)
}

impl<'a> View for Compiler<'a> {
    type V = CompilerView;

    open spec fn view(&self) -> CompilerView {
        CompilerView {
            source: self.parser.scanner.source@,
            start: self.parser.scanner.start as int,
            position: self.parser.scanner.current as int,
            current: self.parser.current@,
            previous: self.parser.previous@,
            had_error: self.parser.had_error,
            panic_mode: self.parser.panic_mode,
            chunk: self.parser.chunk@,
            errors: self.parser.errors@.map_values(|line: Vec<u8>| line@),
            locals: self.locals@.map_values(|local: Local| local@),
            scope_depth: self.scope_depth as int,
        }
    }
}

impl<'a> Compiler<'a> {
    /// The source text.
    pub open spec fn source(&self) -> Seq<u8> {
        self.parser.scanner.source@
    }

    /// How much of the source lies at or after the start of the token in
    /// hand.
    pub open spec fn remaining(&self) -> int {
        self.source().len() - self.parser.scanner.start
    }

    /// The diagnostics reported so far.
    pub open spec fn errors(&self) -> Seq<Seq<u8>> {
        self.parser.errors@.map_values(|line: Vec<u8>| line@)
    }

    /// The local variables in scope, innermost last.
    pub open spec fn locals_view(&self) -> Seq<LocalView> {
        self.locals@.map_values(|local: Local| local@)
    }

    /// Whether every local in scope is defined.
    pub open spec fn settled(&self) -> bool {
        self.locals@.len() > 0 ==> self.locals@.last().depth != UNDEFINED
    }

    /// How many locals in scope are defined.
    pub open spec fn live(&self) -> int {
        if self.settled() { self.locals@.len() as int } else { self.locals@.len() - 1 }
    }

    /// How many values the code emitted so far leaves on the stack when it
    /// is run from an empty stack, if it can be run.
    pub open spec fn depth(&self) -> Option<int> {
        walk(self.parser.chunk@, self.base@, 0, self.parser.chunk.code@.len() as int)
    }

    /// As long as no error was reported, the code emitted so far can run, and
    /// leaves on the stack at least the defined locals.
    pub open spec fn steady(&self) -> bool {
        !self.parser.had_error ==> self.depth() is Some && self.depth().unwrap() >= self.live()
    }

    /// As long as no error was reported, the code emitted so far can run, and
    /// leaves on the stack the locals and nothing else.
    pub open spec fn level(&self) -> bool {
        !self.parser.had_error ==> self.depth() == Some(self.locals@.len() as int)
    }

    /// What holds of the compiler between any two of its steps.
    pub open spec fn inv(&self) -> bool {
        &&& self.parser.scanner.wf()
        &&& self.source().len() <= isize::MAX
        &&& token_ok(self.parser.current@)
        &&& token_ok(self.parser.previous@)
        &&& self.parser.current.kind != TokenKind::Error
        &&& self.parser.current.kind != TokenKind::Eof ==> self.parser.scanner.start
            < self.parser.scanner.current
        &&& self.parser.panic_mode ==> self.parser.had_error
        &&& locals_ok(self.locals_view(), self.scope_depth as int)
        &&& self.scope_depth <= self.parser.scanner.start
        &&& 0 <= self.base@ <= self.parser.chunk.code@.len()
        &&& framed(self.parser.chunk.code@, self.base@, self.parser.chunk.code@.len() as int)
    }
}

/// `after` is a later state of the compilation that `before` is a state of:
/// the source is the same, the scanner has not gone back, code, lines and
/// constants were only added, a line for each byte of code, diagnostics were
/// only added, and `had_error` is set exactly if it was set or one was added.
pub open spec fn follows(before: Compiler, after: Compiler) -> bool {
    &&& after.parser.scanner.source == before.parser.scanner.source
    &&& after.base == before.base
    &&& after.parser.scanner.start >= before.parser.scanner.start
    &&& after.parser.chunk@.extends(before.parser.chunk@)
    &&& after.parser.chunk.code@.len() - before.parser.chunk.code@.len()
        == after.parser.chunk.lines@.len() - before.parser.chunk.lines@.len()
    &&& before.errors().is_prefix_of(after.errors())
    &&& after.parser.had_error == (before.parser.had_error || after.errors().len()
        > before.errors().len())
}

/// The flags and the diagnostics of `after` are those of `before` after a
/// diagnostic at `token`: in panic mode nothing changes; otherwise the
/// diagnostic is added and both flags are set.
pub open spec fn reported(
    before: Compiler,
    after: Compiler,
    token: TokenView,
    message: Seq<u8>,
) -> bool {
    if before.parser.panic_mode {
        quiet(before, after)
    } else {
        &&& after.parser.panic_mode
        &&& after.parser.had_error
        &&& after.errors() == before.errors().push(diagnostic(token, message))
    }
}

/// The flags and the diagnostics of `after` are those of `before`.
pub open spec fn quiet(before: Compiler, after: Compiler) -> bool {
    &&& after.parser.panic_mode == before.parser.panic_mode
    &&& after.parser.had_error == before.parser.had_error
    &&& after.parser.errors == before.parser.errors
}

/// All but the flags and the diagnostics is the same in `after` as in
/// `before`.
pub open spec fn same_but_errors(before: Compiler, after: Compiler) -> bool {
    &&& after.locals == before.locals
    &&& after.scope_depth == before.scope_depth
    &&& after.base == before.base
    &&& after.parser.current == before.parser.current
    &&& after.parser.previous == before.parser.previous
    &&& after.parser.scanner == before.parser.scanner
    &&& after.parser.chunk == before.parser.chunk
}

/// All but the chunk is the same in `after` as in `before`.
pub open spec fn same_but_chunk(before: Compiler, after: Compiler) -> bool {
    &&& after.locals == before.locals
    &&& after.scope_depth == before.scope_depth
    &&& after.base == before.base
    &&& after.parser.current == before.parser.current
    &&& after.parser.previous == before.parser.previous
    &&& after.parser.scanner == before.parser.scanner
    &&& quiet(before, after)
}

/// Writing an instruction that can run at the depth reached moves the depth
/// by what the instruction pushes and pops.
pub proof fn lemma_emit(before: ChunkView, after: ChunkView, base: int, op: OpCode, operand: u8)
    requires
        0 <= base <= before.code.len(),
        walk(before, base, 0, before.code.len() as int) is Some,
        op != OpCode::Return,
        after.constants == before.constants,
        after.lines.len() == after.code.len() - before.code.len() + before.lines.len(),
        before.lines.is_prefix_of(after.lines),
        after.code == if operand_count(op) == 1 {
            before.code.push(op_byte(op)).push(operand)
        } else {
            before.code.push(op_byte(op))
        },
        admits(
            before.constants,
            op,
            if operand_count(op) == 1 { operand } else { 0u8 },
            walk(before, base, 0, before.code.len() as int).unwrap(),
        ),
    ensures
        walk(after, base, 0, after.code.len() as int) == Some(
            walk(before, base, 0, before.code.len() as int).unwrap() + pushes(op) - pops(op),
        ),
{
    let middle = before.code.len() as int;
    let end = after.code.len() as int;
    let d = walk(before, base, 0, middle).unwrap();
    assert(after.extends(before));
    lemma_walk_extends(before, after, base, 0, middle);
    lemma_walk_join(after, base, 0, middle, end);
    lemma_decode_op_byte(op, op_byte(op));
    assert(after.code[middle] == op_byte(op));
    assert(walk(after, end, d + pushes(op) - pops(op), end) == Some(d + pushes(op) - pops(op)));
}

/// Adding constants, lines or diagnostics leaves the depth as it is.
pub proof fn lemma_depth_extends(before: ChunkView, after: ChunkView, base: int)
    requires
        walk(before, base, 0, before.code.len() as int) is Some,
        after.extends(before),
        after.code == before.code,
    ensures
        walk(after, base, 0, after.code.len() as int) == walk(
            before,
            base,
            0,
            before.code.len() as int,
        ),
{
    lemma_walk_extends(before, after, base, 0, before.code.len() as int);
}

impl<'a> Parser<'a> {
    /// Whether the parser stands at the start of its source, with no token
    /// in hand yet and no error found.
    pub open spec fn fresh(&self) -> bool {
        &&& self.scanner.wf()
        &&& self.scanner.start == 0
        &&& self.scanner.current == 0
        &&& self.current@ == no_token()
        &&& self.previous@ == no_token()
        &&& !self.had_error
        &&& !self.panic_mode
    }

    /// A parser at the start of what `scanner` scans, that adds to `chunk`
    /// and to `errors`. No token is in hand yet: the first `advance` fetches
    /// one.
    pub fn new(scanner: Scanner<'a>, chunk: Chunk, errors: Vec<Vec<u8>>) -> (parser: Parser<'a>)
        ensures
            parser.scanner == scanner,
            parser.chunk == chunk,
            parser.errors == errors,
            parser.current@ == no_token(),
            parser.previous@ == no_token(),
            !parser.had_error,
            !parser.panic_mode,
    {
        let parser = Parser {
            current: Token::new(TokenKind::Eof, Vec::new(), 0),
            previous: Token::new(TokenKind::Eof, Vec::new(), 0),
            had_error: false,
            panic_mode: false,
            scanner,
            chunk,
            errors,
        };
        assert(parser.current@.lexeme =~= Seq::empty());
        assert(parser.previous@.lexeme =~= Seq::empty());
        parser
    }
}

impl<'a> Compiler<'a> {
    /// A compiler around a fresh parser, outside any block and with no
    /// locals in scope.
    pub fn new(parser: Parser<'a>) -> (compiler: Compiler<'a>)
        requires
            parser.fresh(),
            parser.scanner.source@.len() <= isize::MAX,
        ensures
            compiler@ == initial(
                parser.scanner.source@,
                parser.chunk@,
                parser.errors@.map_values(|line: Vec<u8>| line@),
            ),
            compiler.inv(),
            compiler.settled(),
            compiler.parser == parser,
            compiler.base@ == parser.chunk.code@.len(),
            compiler.locals@.len() == 0,
            compiler.scope_depth == 0,
            compiler.depth() == Some(0int),
    {
        let ghost base = parser.chunk.code@.len() as int;
        let compiler = Compiler { locals: Vec::new(), scope_depth: 0, parser, base: Ghost(base) };
        assert(compiler@.locals =~= Seq::empty());
        compiler
    }

    /// Reports `message` at `token`, unless the parser is in panic mode.
    pub fn error_at(&mut self, token: &Token, message: &[u8])
        requires
            old(self).parser.panic_mode ==> old(self).parser.had_error,
        ensures
            final(self)@ == old(self)@.report(token@, message@),
            same_but_errors(*old(self), *final(self)),
            reported(*old(self), *final(self), token@, message@),
            follows(*old(self), *final(self)),
            final(self).parser.panic_mode ==> final(self).parser.had_error,
    {
        proof {
            reveal(CompilerView::report);
        }
        if self.parser.panic_mode {
            return ;
        }
        self.parser.panic_mode = true;
        let text = if token.kind == TokenKind::Error {
            error(token.line, message)
        } else {
            error_at_token(token, message)
        };
        self.parser.errors.push(text);
        self.parser.had_error = true;
        assert(self.errors() =~= old(self).errors().push(diagnostic(token@, message@)));
    }

    /// Reports `message` at the token in hand.
    pub fn error_at_current(&mut self, message: &[u8])
        requires
            old(self).parser.panic_mode ==> old(self).parser.had_error,
        ensures
            final(self)@ == old(self)@.report(old(self).parser.current@, message@),
            same_but_errors(*old(self), *final(self)),
            reported(*old(self), *final(self), old(self).parser.current@, message@),
            follows(*old(self), *final(self)),
            final(self).parser.panic_mode ==> final(self).parser.had_error,
    {
        let token = self.parser.current.clone();
        self.error_at(&token, message);
    }

    /// Reports `message` at the token before the one in hand.
    pub fn error(&mut self, message: &[u8])
        requires
            old(self).parser.panic_mode ==> old(self).parser.had_error,
        ensures
            final(self)@ == old(self)@.report(old(self).parser.previous@, message@),
            same_but_errors(*old(self), *final(self)),
            reported(*old(self), *final(self), old(self).parser.previous@, message@),
            follows(*old(self), *final(self)),
            final(self).parser.panic_mode ==> final(self).parser.had_error,
    {
        let token = self.parser.previous.clone();
        self.error_at(&token, message);
    }

    /// Takes the next token in hand. Lexical errors on the way are reported
    /// and passed over.
    pub fn advance(&mut self)
        requires
            old(self).inv(),
        ensures
            final(self)@ == old(self)@.advance(),
            final(self).inv(),
            follows(*old(self), *final(self)),
            final(self).locals == old(self).locals,
            final(self).scope_depth == old(self).scope_depth,
            final(self).parser.chunk == old(self).parser.chunk,
            final(self).parser.previous@ == old(self).parser.current@,
            final(self).parser.current@ == next_token(
                old(self).source(),
                skip_errors(old(self).source(), old(self).parser.scanner.current as int),
            ),
            final(self).parser.scanner.current == next_end(
                old(self).source(),
                skip_errors(old(self).source(), old(self).parser.scanner.current as int),
            ),
            ({
                let first = next_token(old(self).source(), old(self).parser.scanner.current as int);
                if first.kind == TokenKind::Error {
                    reported(*old(self), *final(self), first, first.lexeme)
                } else {
                    quiet(*old(self), *final(self))
                }
            }),
            old(self).parser.current.kind != TokenKind::Eof ==> final(self).remaining() < old(
                self,
            ).remaining(),
    {
        proof {
            reveal(CompilerView::advance);
            reveal(CompilerView::report);
        }
        self.parser.previous = self.parser.current.clone();
        let ghost s = self.source();
        let ghost from = self.parser.scanner.current as int;
        let ghost first = next_token(s, from);
        let ghost entry = *self;
        loop
            invariant_except_break
                skip_errors(s, self.parser.scanner.current as int) == skip_errors(s, from),
                if self.parser.scanner.current == from {
                    quiet(*old(self), *self)
                } else {
                    first.kind == TokenKind::Error && reported(
                        *old(self),
                        *self,
                        first,
                        first.lexeme,
                    )
                },
            invariant
                old(self).inv(),
                self.parser.scanner.wf(),
                self.parser.scanner.source == old(self).parser.scanner.source,
                s == self.source(),
                first == next_token(s, from),
                from <= self.parser.scanner.current,
                from == old(self).parser.scanner.current,
                self.locals == old(self).locals,
                self.scope_depth == old(self).scope_depth,
                self.base == old(self).base,
                self.parser.chunk == old(self).parser.chunk,
                self.parser.previous@ == old(self).parser.current@,
                self.parser.panic_mode ==> self.parser.had_error,
                old(self).errors().is_prefix_of(self.errors()),
                self.parser.had_error == (old(self).parser.had_error || self.errors().len() > old(
                    self,
                ).errors().len()),
            ensures
                self.parser.scanner.wf(),
                self.parser.scanner.source == old(self).parser.scanner.source,
                self.locals == old(self).locals,
                self.scope_depth == old(self).scope_depth,
                self.base == old(self).base,
                self.parser.chunk == old(self).parser.chunk,
                self.parser.previous@ == old(self).parser.current@,
                self.parser.panic_mode ==> self.parser.had_error,
                old(self).errors().is_prefix_of(self.errors()),
                self.parser.had_error == (old(self).parser.had_error || self.errors().len() > old(
                    self,
                ).errors().len()),
                self.parser.current@ == next_token(s, skip_errors(s, from)),
                self.parser.current.kind != TokenKind::Error,
                self.parser.scanner.current == next_end(s, skip_errors(s, from)),
                self.parser.scanner.start == trivia_end(s, skip_errors(s, from), false),
                from <= skip_errors(s, from) <= s.len(),
                if first.kind == TokenKind::Error {
                    reported(*old(self), *self, first, first.lexeme)
                } else {
                    quiet(*old(self), *self)
                },
            decreases s.len() - self.parser.scanner.current,
        {
            let ghost here = self.parser.scanner.current as int;
            let ghost before = *self;
            proof {
                lemma_trivia_end_bounds(s, here, false);
                lemma_lex_bounds(s, trivia_end(s, here, false));
            }
            let token = self.parser.scanner.scan_token();
            assert(token@ == next_token(s, here));
            if token.kind != TokenKind::Error {
                self.parser.current = token;
                break ;
            }
            self.error_at(&token, token.lexeme.as_slice());
            proof {
                if here == from {
                    assert(token@ == first);
                } else {
                    assert(before.parser.panic_mode);
                }
                assert(old(self).errors().is_prefix_of(self.errors()));
            }
        }
        proof {
            let at = skip_errors(s, from);
            lemma_trivia_end_bounds(s, at, false);
            lemma_lex_bounds(s, trivia_end(s, at, false));
        }
    }

    /// Whether the token in hand is of kind `kind`.
    pub fn check(&self, kind: TokenKind) -> (same: bool)
        ensures
            same == (self.parser.current.kind == kind),
    {
        self.parser.current.kind == kind
    }

    /// Takes the next token in hand if the one in hand is of kind `kind`,
    /// and says whether it was.
    pub fn matches(&mut self, kind: TokenKind) -> (matched: bool)
        requires
            old(self).inv(),
        ensures
            final(self)@ == if matched { old(self)@.advance() } else { old(self)@ },
            final(self).inv(),
            follows(*old(self), *final(self)),
            final(self).locals == old(self).locals,
            final(self).scope_depth == old(self).scope_depth,
            final(self).parser.chunk == old(self).parser.chunk,
            matched == (old(self).parser.current.kind == kind),
            !matched ==> *final(self) == *old(self),
            matched ==> final(self).parser.previous@ == old(self).parser.current@,
            matched && kind != TokenKind::Eof ==> final(self).remaining() < old(self).remaining(),
    {
        if !self.check(kind) {
            false
        } else {
            self.advance();
            true
        }
    }

    /// Takes the next token in hand if the one in hand is of kind
    /// `expected`; reports `message` at it otherwise.
    pub fn consume(&mut self, expected: TokenKind, message: &[u8])
        requires
            old(self).inv(),
        ensures
            final(self)@ == old(self)@.consume(expected, message@),
            final(self).inv(),
            follows(*old(self), *final(self)),
            final(self).locals == old(self).locals,
            final(self).scope_depth == old(self).scope_depth,
            final(self).parser.chunk == old(self).parser.chunk,
            old(self).parser.current.kind == expected ==> final(self).parser.previous@ == old(
                self,
            ).parser.current@,
            old(self).parser.current.kind != expected ==> same_but_errors(
                *old(self),
                *final(self),
            ) && reported(*old(self), *final(self), old(self).parser.current@, message@),
    {
        proof {
            reveal(CompilerView::consume);
        }
        if self.parser.current.kind == expected {
            self.advance();
            return ;
        }
        self.error_at_current(message);
    }

    /// Writes a byte of code, from the line of the token before the one in
    /// hand.
    pub fn emit_byte(&mut self, byte: u8)
        ensures
            final(self)@ == old(self)@.emit(byte),
            same_but_chunk(*old(self), *final(self)),
            final(self).parser.chunk@ == old(self).parser.chunk@.write(
                byte,
                old(self).parser.previous.line,
            ),
    {
        self.parser.chunk.write(byte, self.parser.previous.line);
    }

    /// Writes two bytes of code.
    pub fn emit_bytes(&mut self, byte1: u8, byte2: u8)
        ensures
            final(self)@ == old(self)@.emit(byte1).emit(byte2),
            same_but_chunk(*old(self), *final(self)),
            final(self).parser.chunk@ == old(self).parser.chunk@.write(
                byte1,
                old(self).parser.previous.line,
            ).write(byte2, old(self).parser.previous.line),
    {
        self.emit_byte(byte1);
        self.emit_byte(byte2);
    }

    /// Writes an instruction that has no operand.
    pub fn emit_op(&mut self, op: OpCode)
        requires
            old(self).inv(),
            operand_count(op) == 0,
        ensures
            final(self)@ == old(self)@.emit_op(op),
            final(self).inv(),
            follows(*old(self), *final(self)),
            same_but_chunk(*old(self), *final(self)),
            final(self).parser.chunk@ == old(self).parser.chunk@.write(
                op_byte(op),
                old(self).parser.previous.line,
            ),
            old(self).depth() is Some && old(self).depth().unwrap() >= pops(op) && op
                != OpCode::Return ==> final(self).depth() == Some(
                old(self).depth().unwrap() + pushes(op) - pops(op),
            ),
    {
        self.emit_byte(op.to_byte());
        proof {
            lemma_framed_push(
                old(self).parser.chunk.code@,
                self.parser.chunk.code@,
                self.base@,
                op,
            );
            if old(self).depth() is Some && old(self).depth().unwrap() >= pops(op) && op
                != OpCode::Return {
                lemma_emit(old(self).parser.chunk@, self.parser.chunk@, self.base@, op, 0);
            }
        }
    }

    /// Writes an instruction and its operand.
    pub fn emit_op_with(&mut self, op: OpCode, operand: u8)
        requires
            old(self).inv(),
            operand_count(op) == 1,
        ensures
            final(self)@ == old(self)@.emit_op_with(op, operand),
            final(self).inv(),
            follows(*old(self), *final(self)),
            same_but_chunk(*old(self), *final(self)),
            final(self).parser.chunk@ == old(self).parser.chunk@.write(
                op_byte(op),
                old(self).parser.previous.line,
            ).write(operand, old(self).parser.previous.line),
            old(self).depth() is Some && admits(
                old(self).parser.chunk@.constants,
                op,
                operand,
                old(self).depth().unwrap(),
            ) ==> final(self).depth() == Some(old(self).depth().unwrap() + pushes(op) - pops(op)),
    {
        self.emit_bytes(op.to_byte(), operand);
        proof {
            lemma_framed_push(
                old(self).parser.chunk.code@,
                self.parser.chunk.code@,
                self.base@,
                op,
            );
            if old(self).depth() is Some && admits(
                old(self).parser.chunk@.constants,
                op,
                operand,
                old(self).depth().unwrap(),
            ) {
                lemma_emit(old(self).parser.chunk@, self.parser.chunk@, self.base@, op, operand);
            }
        }
    }

    /// Writes the `Return` that ends the program.
    pub fn emit_return(&mut self)
        ensures
            final(self)@ == old(self)@.emit_op(OpCode::Return),
            same_but_chunk(*old(self), *final(self)),
            final(self).parser.chunk@ == old(self).parser.chunk@.write(
                op_byte(OpCode::Return),
                old(self).parser.previous.line,
            ),
    {
        self.emit_byte(OpCode::Return.to_byte());
    }

    /// Adds `constant` to the chunk and returns its index. At most 256
    /// constants can be named: the index of a later one is reported and 0
    /// returned.
    pub fn make_constant(&mut self, constant: Constant) -> (index: u8)
        requires
            old(self).inv(),
        ensures
            final(self)@ == old(self)@.make_constant(constant@),
            index == old(self)@.constant_index(),
            final(self).inv(),
            follows(*old(self), *final(self)),
            final(self).locals == old(self).locals,
            final(self).scope_depth == old(self).scope_depth,
            final(self).parser.current == old(self).parser.current,
            final(self).parser.previous == old(self).parser.previous,
            final(self).parser.scanner == old(self).parser.scanner,
            final(self).parser.chunk@ == old(self).parser.chunk@.add_constant(constant@),
            if old(self).parser.chunk@.constants.len() > u8::MAX {
                &&& index == 0
                &&& reported(
                    *old(self),
                    *final(self),
                    old(self).parser.previous@,
                    "Too many constants in one chunk.".spec_bytes(),
                )
            } else {
                &&& index == old(self).parser.chunk@.constants.len()
                &&& quiet(*old(self), *final(self))
            },
            old(self).depth() is Some ==> final(self).depth() == old(self).depth(),
    {
        proof {
            reveal(CompilerView::make_constant);
        }
        let index = self.parser.chunk.add_constant(constant);
        proof {
            if old(self).depth() is Some {
                lemma_depth_extends(old(self).parser.chunk@, self.parser.chunk@, self.base@);
            }
        }
        if index > 255 {
            self.error("Too many constants in one chunk.".as_bytes());
            0
        } else {
            index as u8
        }
    }

    /// Adds `constant` to the chunk and writes the instruction that loads
    /// it.
    pub fn emit_constant(&mut self, constant: Constant)
        requires
            old(self).inv(),
        ensures
            final(self)@ == old(self)@.emit_constant(constant@),
            final(self).inv(),
            follows(*old(self), *final(self)),
            final(self).locals == old(self).locals,
            final(self).scope_depth == old(self).scope_depth,
            final(self).parser.current == old(self).parser.current,
            final(self).parser.previous == old(self).parser.previous,
            final(self).parser.scanner == old(self).parser.scanner,
            final(self).parser.chunk@ == old(self).parser.chunk@.add_constant(constant@).write(
                op_byte(OpCode::Constant),
                old(self).parser.previous.line,
            ).write(
                if old(self).parser.chunk@.constants.len() > u8::MAX {
                    0u8
                } else {
                    old(self).parser.chunk@.constants.len() as u8
                },
                old(self).parser.previous.line,
            ),
            old(self).depth() is Some && !final(self).parser.had_error ==> final(self).depth()
                == Some(old(self).depth().unwrap() + 1),
    {
        proof {
            reveal(CompilerView::emit_constant);
        }
        let offset = self.make_constant(constant);
        proof {
            if old(self).depth() is Some {
                lemma_walk_nonnegative(
                    old(self).parser.chunk@,
                    self.base@,
                    0,
                    old(self).parser.chunk.code@.len() as int,
                );
            }
        }
        self.emit_op_with(OpCode::Constant, offset);
    }

    /// Adds the name of a variable to the chunk's constants.
    pub fn identifier_constant(&mut self, name: &Token) -> (index: u8)
        requires
            old(self).inv(),
        ensures
            final(self)@ == old(self)@.make_constant(ConstantView::String(name@.lexeme)),
            index == old(self)@.constant_index(),
            final(self).inv(),
            follows(*old(self), *final(self)),
            final(self).locals == old(self).locals,
            final(self).scope_depth == old(self).scope_depth,
            final(self).parser.current == old(self).parser.current,
            final(self).parser.previous == old(self).parser.previous,
            final(self).parser.scanner == old(self).parser.scanner,
            final(self).parser.chunk@ == old(self).parser.chunk@.add_constant(
                ConstantView::String(name@.lexeme),
            ),
            if old(self).parser.chunk@.constants.len() > u8::MAX {
                &&& index == 0
                &&& reported(
                    *old(self),
                    *final(self),
                    old(self).parser.previous@,
                    "Too many constants in one chunk.".spec_bytes(),
                )
            } else {
                &&& index == old(self).parser.chunk@.constants.len()
                &&& quiet(*old(self), *final(self))
            },
            old(self).depth() is Some ==> final(self).depth() == old(self).depth(),
    {
        self.make_constant(Constant::String(copy_bytes(name.lexeme.as_slice())))
    }

    /// Enters a block.
    pub fn begin_scope(&mut self)
        requires
            old(self).inv(),
            old(self).scope_depth < old(self).parser.scanner.start,
        ensures
            final(self)@ == old(self)@.begin_scope(),
            final(self).inv(),
            final(self).scope_depth == old(self).scope_depth + 1,
            final(self).locals == old(self).locals,
            final(self).parser == old(self).parser,
            final(self).base == old(self).base,
    {
        self.scope_depth += 1;
    }
}

/// The first locals of sound locals are sound, and all defined if some local
/// is left out.
pub proof fn lemma_locals_ok_take(locals: Seq<LocalView>, scope_depth: int, n: int)
    requires
        locals_ok(locals, scope_depth),
        0 <= n <= locals.len(),
    ensures
        locals_ok(locals.take(n), scope_depth),
        0 < n < locals.len() ==> locals.take(n).last().depth != UNDEFINED,
{
    let first = locals.take(n);
    assert forall|i: int| 0 <= i < first.len() implies {
        &&& (#[trigger] first[i]).depth == UNDEFINED || 1 <= first[i].depth <= scope_depth
        &&& first[i].depth == UNDEFINED ==> i == first.len() - 1
    } by {
        assert(first[i] == locals[i]);
    }
    assert forall|i: int, j: int|
        0 <= i < j < first.len() && (#[trigger] first[j]).depth != UNDEFINED implies {
        &&& (#[trigger] first[i]).depth <= first[j].depth
        &&& !(first[i].depth == first[j].depth && first[i].name.lexeme == first[j].name.lexeme)
    } by {
        assert(first[i] == locals[i]);
        assert(first[j] == locals[j]);
    }
    if n > 0 {
        assert(first.last() == locals[n - 1]);
    }
}

/// Leaving the blocks deeper than `depth` removes the locals declared
/// deeper than `depth` and no others.
pub proof fn lemma_kept(locals: Seq<LocalView>, scope_depth: int, depth: int, n: int)
    requires
        locals_ok(locals, scope_depth),
        0 <= n <= locals.len(),
        n > 0 ==> locals[n - 1].depth != UNDEFINED,
        0 <= depth,
    ensures
        0 <= kept(locals, depth, n) <= n,
        forall|i: int| 0 <= i < kept(locals, depth, n) ==> (#[trigger] locals[i]).depth <= depth,
        forall|i: int| kept(locals, depth, n) <= i < n ==> (#[trigger] locals[i]).depth > depth,
    decreases n,
{
    if n > 0 && locals[n - 1].depth > depth {
        if n > 1 {
            assert(locals[n - 2].depth != UNDEFINED);
        }
        lemma_kept(locals, scope_depth, depth, n - 1);
    } else if n > 0 {
        assert forall|i: int| 0 <= i < n implies (#[trigger] locals[i]).depth <= depth by {
            if i < n - 1 {
                assert(locals[i].depth <= locals[n - 1].depth);
            }
        }
    }
}

/// What `resolved` finds: the innermost defined local with the name. Where
/// it finds one, no other local of the same block has that name.
pub proof fn lemma_resolved(locals: Seq<LocalView>, scope_depth: int, name: Seq<u8>, n: int)
    requires
        locals_ok(locals, scope_depth),
        0 <= n <= locals.len(),
    ensures
        -1 <= resolved(locals, name, n) < n,
        resolved(locals, name, n) == -1 <==> forall|i: int|
            0 <= i < n ==> !((#[trigger] locals[i]).depth != UNDEFINED && locals[i].name.lexeme
                == name),
        resolved(locals, name, n) >= 0 ==> {
            let found = locals[resolved(locals, name, n)];
            &&& found.depth != UNDEFINED
            &&& found.name.lexeme == name
            &&& forall|i: int|
                resolved(locals, name, n) < i < n ==> !((#[trigger] locals[i]).depth != UNDEFINED
                    && locals[i].name.lexeme == name)
            &&& forall|i: int|
                0 <= i < locals.len() && i != resolved(locals, name, n) && (
                #[trigger] locals[i]).name.lexeme == name ==> locals[i].depth != found.depth
        },
    decreases n,
{
    if n > 0 {
        if locals[n - 1].depth != UNDEFINED && locals[n - 1].name.lexeme == name {
            let found = locals[n - 1];
            assert forall|i: int|
                0 <= i < locals.len() && i != n - 1 && (#[trigger] locals[i]).name.lexeme
                    == name implies locals[i].depth != found.depth by {
                if i < n - 1 {
                    assert(!(locals[i].depth == locals[n - 1].depth && locals[i].name.lexeme
                        == locals[n - 1].name.lexeme));
                } else if locals[i].depth != UNDEFINED {
                    assert(!(locals[n - 1].depth == locals[i].depth && locals[n - 1].name.lexeme
                        == locals[i].name.lexeme));
                }
            }
        } else {
            lemma_resolved(locals, scope_depth, name, n - 1);
        }
    }
}

/// Leaving a block writes one `Pop` for each local it removes: `count` bytes
/// of code, each of them `Pop`, and a line for each.
pub proof fn lemma_with_pops(chunk: ChunkView, count: int, line: usize)
    requires
        0 <= count,
    ensures
        with_pops(chunk, count, line).constants == chunk.constants,
        with_pops(chunk, count, line).code.len() == chunk.code.len() + count,
        with_pops(chunk, count, line).lines.len() == chunk.lines.len() + count,
        chunk.code.is_prefix_of(with_pops(chunk, count, line).code),
        chunk.lines.is_prefix_of(with_pops(chunk, count, line).lines),
        forall|i: int|
            chunk.code.len() <= i < chunk.code.len() + count ==> #[trigger] with_pops(
                chunk,
                count,
                line,
            ).code[i] == op_byte(OpCode::Pop),
    decreases count,
{
    if count > 0 {
        lemma_with_pops(chunk, count - 1, line);
    }
}

impl<'a> Compiler<'a> {
    /// Leaves a block: the locals declared in it go out of scope, and a `Pop`
    /// is written for each to take its value off the stack.
    pub fn end_scope(&mut self)
        requires
            old(self).inv(),
            old(self).settled(),
            old(self).scope_depth > 0,
        ensures
            final(self)@ == old(self)@.end_scope(),
            final(self).inv(),
            final(self).settled(),
            follows(*old(self), *final(self)),
            final(self).parser.current == old(self).parser.current,
            final(self).parser.previous == old(self).parser.previous,
            final(self).parser.scanner == old(self).parser.scanner,
            quiet(*old(self), *final(self)),
            final(self).scope_depth == old(self).scope_depth - 1,
            final(self).locals_view() == old(self).locals_view().take(
                kept(
                    old(self).locals_view(),
                    old(self).scope_depth - 1,
                    old(self).locals@.len() as int,
                ),
            ),
            final(self).parser.chunk@ == with_pops(
                old(self).parser.chunk@,
                old(self).locals@.len() - final(self).locals@.len(),
                old(self).parser.previous.line,
            ),
            old(self).level() ==> final(self).level(),
    {
        proof {
            reveal(CompilerView::end_scope);
        }
        let ghost all = self.locals_view();
        let ghost target = self.scope_depth - 1;
        let ghost line = self.parser.previous.line;
        proof {
            lemma_kept(all, self.scope_depth as int, target, all.len() as int);
        }
        while self.locals.len() > 0 && self.locals[self.locals.len() - 1].depth
            > (self.scope_depth - 1) as isize
            invariant
                old(self).inv(),
                old(self).settled(),
                old(self).scope_depth > 0,
                self.inv(),
                self.settled(),
                follows(*old(self), *self),
                self.parser.current == old(self).parser.current,
                self.parser.previous == old(self).parser.previous,
                self.parser.scanner == old(self).parser.scanner,
                quiet(*old(self), *self),
                self.scope_depth == old(self).scope_depth,
                all == old(self).locals_view(),
                target == self.scope_depth - 1,
                line == self.parser.previous.line,
                self.locals@.len() <= all.len(),
                self.locals_view() == all.take(self.locals@.len() as int),
                kept(all, target, self.locals@.len() as int) == kept(all, target, all.len() as int),
                self.parser.chunk@ == with_pops(
                    old(self).parser.chunk@,
                    all.len() - self.locals@.len(),
                    line,
                ),
                old(self).level() ==> self.level(),
            decreases self.locals@.len(),
        {
            let ghost before = *self;
            proof {
                if self.depth() is Some {
                    lemma_walk_nonnegative(
                        self.parser.chunk@,
                        self.base@,
                        0,
                        self.parser.chunk.code@.len() as int,
                    );
                }
                lemma_locals_ok_take(
                    self.locals_view(),
                    self.scope_depth as int,
                    self.locals@.len() - 1,
                );
                assert(self.locals_view().last() == all[self.locals@.len() - 1]);
            }
            self.emit_op(OpCode::Pop);
            self.locals.pop();
            proof {
                assert(self.locals_view() =~= before.locals_view().take(
                    before.locals@.len() - 1,
                ));
                assert(self.locals_view() =~= all.take(self.locals@.len() as int));
            }
        }
        proof {
            let k = self.locals@.len() as int;
            assert(kept(all, target, k) == k) by {
                if k > 0 {
                    assert(self.locals_view().last() == all[k - 1]);
                }
            }
            assert forall|i: int| 0 <= i < k implies 1 <= (
            #[trigger] self.locals_view()[i]).depth <= target by {
                assert(self.locals_view()[i] == all[i]);
            }
            lemma_with_pops(old(self).parser.chunk@, all.len() - k, line);
        }
        self.scope_depth -= 1;
    }

    /// The stack slot of the innermost defined local named as `name` is, or
    /// -1 if there is none.
    pub fn resolve_local(&self, name: &Token) -> (slot: isize)
        requires
            self.inv(),
        ensures
            slot == resolved(self.locals_view(), name@.lexeme, self.locals@.len() as int),
            -1 <= slot < self.live(),
    {
        proof {
            lemma_resolved(
                self.locals_view(),
                self.scope_depth as int,
                name@.lexeme,
                self.locals@.len() as int,
            );
        }
        let mut i: usize = self.locals.len();
        while i > 0
            invariant
                self.inv(),
                i <= self.locals@.len(),
                resolved(self.locals_view(), name@.lexeme, i as int) == resolved(
                    self.locals_view(),
                    name@.lexeme,
                    self.locals@.len() as int,
                ),
            decreases i,
        {
            i -= 1;
            let local = &self.locals[i];
            assert(self.locals_view()[i as int] == local@);
            if local.depth != UNDEFINED && same_bytes(
                name.lexeme.as_slice(),
                local.name.lexeme.as_slice(),
            ) {
                return i as isize;
            }
        }
        -1
    }

    /// Brings a local named by `name` into scope, not yet defined. At most
    /// 256 locals can be in scope: one more is reported.
    pub fn add_local(&mut self, name: Token)
        requires
            old(self).inv(),
            old(self).settled(),
            !declared_in(old(self).locals_view(), name@.lexeme, old(self).scope_depth as int),
        ensures
            final(self).inv(),
            follows(*old(self), *final(self)),
            final(self).scope_depth == old(self).scope_depth,
            final(self).parser.current == old(self).parser.current,
            final(self).parser.previous == old(self).parser.previous,
            final(self).parser.scanner == old(self).parser.scanner,
            final(self).parser.chunk == old(self).parser.chunk,
            if old(self).locals@.len() == MAX_LOCALS {
                &&& final(self).locals == old(self).locals
                &&& reported(
                    *old(self),
                    *final(self),
                    old(self).parser.previous@,
                    "Too many local variables in function.".spec_bytes(),
                )
            } else {
                &&& final(self).locals_view() == old(self).locals_view().push(
                    LocalView { name: name@, depth: UNDEFINED as int },
                )
                &&& quiet(*old(self), *final(self))
            },
    {
        proof {
            reveal(CompilerView::report);
        }
        if self.locals.len() == MAX_LOCALS {
            self.error("Too many local variables in function.".as_bytes());
            return ;
        }
        let ghost before = self.locals_view();
        let ghost added = LocalView { name: name@, depth: UNDEFINED as int };
        let local = Local { name, depth: UNDEFINED };
        self.locals.push(local);
        proof {
            let after = self.locals_view();
            assert(after =~= before.push(added));
            assert forall|i: int| 0 <= i < after.len() implies {
                &&& (#[trigger] after[i]).depth == UNDEFINED || 1 <= after[i].depth
                    <= self.scope_depth
                &&& after[i].depth == UNDEFINED ==> i == after.len() - 1
            } by {
                if i < before.len() {
                    assert(after[i] == before[i]);
                    if before.len() > 0 && i == before.len() - 1 {
                        assert(before[i] == before.last());
                    }
                }
            }
            assert forall|i: int, j: int|
                0 <= i < j < after.len() && (#[trigger] after[j]).depth != UNDEFINED implies {
                &&& (#[trigger] after[i]).depth <= after[j].depth
                &&& !(after[i].depth == after[j].depth && after[i].name.lexeme
                    == after[j].name.lexeme)
            } by {
                assert(after[i] == before[i]);
                assert(after[j] == before[j]);
            }
            assert forall|i: int|
                0 <= i < after.len() - 1 && after.last().depth == UNDEFINED implies !((
                #[trigger] after[i]).depth == self.scope_depth && after[i].name.lexeme
                    == after.last().name.lexeme) by {
                assert(after[i] == before[i]);
            }
        }
    }

    /// Declares the variable named by the token before the one in hand.
    /// Outside any block this does nothing: the variable is a global. Inside
    /// a block it brings a local into scope, unless the block has declared the
    /// name already, which is reported.
    pub fn declare_variable(&mut self)
        requires
            old(self).inv(),
            old(self).settled(),
        ensures
            final(self)@ == old(self)@.declare_variable(),
            final(self).inv(),
            follows(*old(self), *final(self)),
            final(self).scope_depth == old(self).scope_depth,
            final(self).parser.current == old(self).parser.current,
            final(self).parser.previous == old(self).parser.previous,
            final(self).parser.scanner == old(self).parser.scanner,
            final(self).parser.chunk == old(self).parser.chunk,
            if old(self).scope_depth == 0 {
                &&& final(self).locals == old(self).locals
                &&& quiet(*old(self), *final(self))
            } else if declared_in(
                old(self).locals_view(),
                old(self).parser.previous@.lexeme,
                old(self).scope_depth as int,
            ) {
                &&& final(self).locals == old(self).locals
                &&& reported(
                    *old(self),
                    *final(self),
                    old(self).parser.previous@,
                    "Already a variable with this name in this scope.".spec_bytes(),
                )
            } else if old(self).locals@.len() == MAX_LOCALS {
                &&& final(self).locals == old(self).locals
                &&& reported(
                    *old(self),
                    *final(self),
                    old(self).parser.previous@,
                    "Too many local variables in function.".spec_bytes(),
                )
            } else {
                &&& final(self).locals_view() == old(self).locals_view().push(
                    LocalView { name: old(self).parser.previous@, depth: UNDEFINED as int },
                )
                &&& quiet(*old(self), *final(self))
            },
    {
        proof {
            reveal(CompilerView::declare_variable);
            reveal(CompilerView::report);
        }
        if self.scope_depth == 0 {
            return ;
        }
        let name = self.parser.previous.clone();
        let ghost all = self.locals_view();
        let mut i: usize = self.locals.len();
        let mut duplicate = false;
        let mut searching = true;
        while i > 0 && searching
            invariant
                self.inv(),
                self.settled(),
                *self == *old(self),
                all == self.locals_view(),
                name@ == self.parser.previous@,
                i <= self.locals@.len(),
                self.scope_depth > 0,
                forall|j: int|
                    i <= j < all.len() ==> (#[trigger] all[j]).depth == self.scope_depth
                        && all[j].name.lexeme != name@.lexeme,
                duplicate ==> declared_in(all, name@.lexeme, self.scope_depth as int),
                !searching && !duplicate ==> !declared_in(
                    all,
                    name@.lexeme,
                    self.scope_depth as int,
                ),
            decreases i, if searching { 1int } else { 0int },
        {
            let local = &self.locals[i - 1];
            assert(all[i - 1] == local@);
            proof {
                if i == self.locals@.len() {
                    assert(all[i - 1] == all.last());
                }
            }
            if local.depth != UNDEFINED && local.depth < self.scope_depth as isize {
                proof {
                    assert forall|j: int| 0 <= j < all.len() implies !((#[trigger] all[j]).depth
                        == self.scope_depth && all[j].name.lexeme == name@.lexeme) by {
                        if j < i - 1 {
                            assert(all[j].depth <= all[i - 1].depth);
                        }
                    }
                }
                searching = false;
            } else if same_bytes(name.lexeme.as_slice(), local.name.lexeme.as_slice()) {
                duplicate = true;
                searching = false;
            } else {
                i -= 1;
            }
        }
        if duplicate {
            self.error("Already a variable with this name in this scope.".as_bytes());
            return ;
        }
        self.add_local(name);
    }

    /// Marks the innermost local as defined, in the block at hand: from here
    /// on its name resolves to it.
    pub fn mark_initialized(&mut self)
        requires
            old(self).inv(),
            old(self).scope_depth > 0,
        ensures
            final(self)@ == old(self)@.mark_initialized(),
            final(self).inv(),
            final(self).settled(),
            final(self).parser == old(self).parser,
            final(self).scope_depth == old(self).scope_depth,
            final(self).base == old(self).base,
            final(self).locals_view() == if old(self).settled() {
                old(self).locals_view()
            } else {
                old(self).locals_view().update(
                    old(self).locals@.len() - 1,
                    LocalView {
                        name: old(self).locals_view().last().name,
                        depth: old(self).scope_depth as int,
                    },
                )
            },
    {
        proof {
            reveal(CompilerView::mark_initialized);
        }
        let n = self.locals.len();
        if n > 0 && self.locals[n - 1].depth == UNDEFINED {
            let ghost before = self.locals_view();
            assert(before.last() == self.locals@.last()@);
            let local = self.locals.pop().unwrap();
            let marked = Local { name: local.name, depth: self.scope_depth as isize };
            self.locals.push(marked);
            proof {
                let after = self.locals_view();
                assert(after =~= before.update(
                    n - 1,
                    LocalView { name: before.last().name, depth: self.scope_depth as int },
                ));
                assert forall|i: int| 0 <= i < after.len() implies {
                    &&& (#[trigger] after[i]).depth == UNDEFINED || 1 <= after[i].depth
                        <= self.scope_depth
                    &&& after[i].depth == UNDEFINED ==> i == after.len() - 1
                } by {
                    if i < n - 1 {
                        assert(after[i] == before[i]);
                    }
                }
                assert forall|i: int, j: int|
                    0 <= i < j < after.len() && (#[trigger] after[j]).depth
                        != UNDEFINED implies {
                    &&& (#[trigger] after[i]).depth <= after[j].depth
                    &&& !(after[i].depth == after[j].depth && after[i].name.lexeme
                        == after[j].name.lexeme)
                } by {
                    assert(after[i] == before[i]);
                    if j < n - 1 {
                        assert(after[j] == before[j]);
                    } else {
                        assert(before[i].depth != UNDEFINED);
                        assert(!(before[i].depth == self.scope_depth && before[i].name.lexeme
                            == before.last().name.lexeme));
                    }
                }
            }
        } else {
            proof {
                if n > 0 {
                    assert(self.locals_view().last() == self.locals@.last()@);
                }
            }
        }
    }

    /// Defines the variable just declared. A local's value already sits on
    /// the stack in the local's slot: the local is marked as defined and no
    /// code is written. For a global, `global` names the constant that holds
    /// its name, and `DefineGlobal` is written.
    pub fn define_variable(&mut self, global: u8)
        requires
            old(self).inv(),
            old(self).scope_depth == 0 ==> old(self).settled(),
        ensures
            final(self)@ == old(self)@.define_variable(global),
            final(self).inv(),
            final(self).settled(),
            follows(*old(self), *final(self)),
            final(self).scope_depth == old(self).scope_depth,
            final(self).parser.current == old(self).parser.current,
            final(self).parser.previous == old(self).parser.previous,
            final(self).parser.scanner == old(self).parser.scanner,
            quiet(*old(self), *final(self)),
            if old(self).scope_depth > 0 {
                &&& final(self).parser.chunk == old(self).parser.chunk
                &&& final(self).locals_view() == if old(self).settled() {
                    old(self).locals_view()
                } else {
                    old(self).locals_view().update(
                        old(self).locals@.len() - 1,
                        LocalView {
                            name: old(self).locals_view().last().name,
                            depth: old(self).scope_depth as int,
                        },
                    )
                }
            } else {
                &&& final(self).locals == old(self).locals
                &&& final(self).parser.chunk@ == old(self).parser.chunk@.write(
                    op_byte(OpCode::DefineGlobal),
                    old(self).parser.previous.line,
                ).write(global, old(self).parser.previous.line)
                &&& old(self).depth() is Some && admits(
                    old(self).parser.chunk@.constants,
                    OpCode::DefineGlobal,
                    global,
                    old(self).depth().unwrap(),
                ) ==> final(self).depth() == Some(old(self).depth().unwrap() - 1)
            },
    {
        proof {
            reveal(CompilerView::define_variable);
        }
        if self.scope_depth > 0 {
            self.mark_initialized();
            return ;
        }
        self.emit_op_with(OpCode::DefineGlobal, global);
    }
}

/// Writing one byte, or two, is writing them one after the other.
pub proof fn lemma_emit_all(state: CompilerView, first: u8, second: u8)
    ensures
        state.emit_all(seq![first]) == state.emit(first),
        state.emit_all(seq![first, second]) == state.emit(first).emit(second),
{
    assert(seq![first].drop_last() =~= Seq::<u8>::empty());
    assert(state.emit_all(seq![first].drop_last()) == state);
    assert(seq![first, second].drop_last() =~= seq![first]);
    assert(state.emit_all(seq![first, second]) == state.emit_all(seq![first]).emit(second));
}

/// `after` is the state in which compiling one expression leaves the
/// compiler that was in state `before`: the scope and the locals are the
/// same, and as long as no error was reported the code can run and leaves one
/// value more on the stack, the value of the expression.
pub open spec fn expressed(before: Compiler, after: Compiler) -> bool {
    &&& after.inv()
    &&& follows(before, after)
    &&& after.locals == before.locals
    &&& after.scope_depth == before.scope_depth
    &&& !after.parser.had_error ==> after.depth() == Some(before.depth().unwrap() + 1)
}

/// The locals `after` are the locals `before` and then locals declared at
/// depth `depth`.
pub open spec fn declares(before: Seq<LocalView>, after: Seq<LocalView>, depth: int) -> bool {
    &&& before.is_prefix_of(after)
    &&& forall|i: int| before.len() <= i < after.len() ==> (#[trigger] after[i]).depth == depth
}

/// `after` is the state in which compiling one declaration or statement
/// leaves the compiler that was in state `before`. All locals are defined
/// again, the scope is the same, and as long as no error was reported the
/// code can run and leaves on the stack the locals and nothing else: at the
/// top level, where there are no locals, what it found there.
pub open spec fn stated(before: Compiler, after: Compiler) -> bool {
    &&& after.inv()
    &&& after.settled()
    &&& after.level()
    &&& follows(before, after)
    &&& after.scope_depth == before.scope_depth
    &&& declares(before.locals_view(), after.locals_view(), before.scope_depth as int)
}

/// The bytecode of the binary operator `kind`, which takes both operands from
/// the stack and leaves the result.
pub open spec fn binary_code(kind: TokenKind) -> Seq<u8> {
    match kind {
        TokenKind::BangEqual => seq![op_byte(OpCode::Equal), op_byte(OpCode::Not)],
        TokenKind::EqualEqual => seq![op_byte(OpCode::Equal)],
        TokenKind::Greater => seq![op_byte(OpCode::Greater)],
        TokenKind::GreaterEqual => seq![op_byte(OpCode::Less), op_byte(OpCode::Not)],
        TokenKind::Less => seq![op_byte(OpCode::Less)],
        TokenKind::LessEqual => seq![op_byte(OpCode::Greater), op_byte(OpCode::Not)],
        TokenKind::Plus => seq![op_byte(OpCode::Add)],
        TokenKind::Minus => seq![op_byte(OpCode::Sub)],
        TokenKind::Star => seq![op_byte(OpCode::Mul)],
        TokenKind::Slash => seq![op_byte(OpCode::Div)],
        _ => Seq::empty(),
    }
}

/// The bytecode of the unary operator `kind`, which takes its operand from
/// the stack and leaves the result.
pub open spec fn unary_code(kind: TokenKind) -> Seq<u8> {
    if kind == TokenKind::Minus {
        seq![op_byte(OpCode::Negate)]
    } else {
        seq![op_byte(OpCode::Not)]
    }
}

/// Whether `code` ends with the bytes `tail`.
pub open spec fn ends_with(code: Seq<u8>, tail: Seq<u8>) -> bool {
    code.len() >= tail.len() && code.subrange(code.len() - tail.len(), code.len() as int) == tail
}

/// The instruction of the literal `kind`.
pub open spec fn literal_op(kind: TokenKind) -> OpCode {
    match kind {
        TokenKind::False => OpCode::False,
        TokenKind::True => OpCode::True,
        _ => OpCode::Nil,
    }
}

impl<'a> Compiler<'a> {
    /// Parses the name of a variable being declared; `error_message` is
    /// reported if no name is in hand. The variable is declared. For a
    /// global, the result names the constant that holds the variable's name;
    /// for a local it is 0.
    pub fn parse_variable(&mut self, error_message: &[u8]) -> (global: u8)
        requires
            old(self).inv(),
            old(self).settled(),
        ensures
            final(self)@ == old(self)@.parse_variable(error_message@),
            global == old(self)@.parsed_global(error_message@),
            final(self).inv(),
            follows(*old(self), *final(self)),
            final(self).scope_depth == old(self).scope_depth,
            final(self).parser.chunk@.code == old(self).parser.chunk@.code,
            old(self).depth() is Some ==> final(self).depth() == old(self).depth(),
            final(self).live() == old(self).locals@.len(),
            if old(self).scope_depth == 0 {
                &&& final(self).locals == old(self).locals
                &&& !final(self).parser.had_error ==> {
                    &&& global < final(self).parser.chunk@.constants.len()
                    &&& final(self).parser.chunk@.constants[global as int]
                        == ConstantView::String(final(self).parser.previous@.lexeme)
                }
            } else {
                &&& global == 0
                &&& (final(self).locals == old(self).locals || final(self).locals_view() == old(
                    self,
                ).locals_view().push(
                    LocalView { name: final(self).parser.previous@, depth: UNDEFINED as int },
                ))
                &&& !final(self).parser.had_error ==> final(self).locals@.len() == old(
                    self,
                ).locals@.len() + 1
            },
    {
        proof {
            reveal(CompilerView::parse_variable);
            reveal(CompilerView::parsed_global);
        }
        self.consume(TokenKind::Identifier, error_message);
        let ghost middle = *self;
        self.declare_variable();
        proof {
            let pushed = middle.locals_view().push(
                LocalView { name: middle.parser.previous@, depth: UNDEFINED as int },
            );
            if self.locals_view() == pushed && self.locals != middle.locals {
                assert(self.locals@.len() == pushed.len());
                assert(self.locals@.last()@ == pushed.last());
            }
        }
        if self.scope_depth > 0 {
            return 0;
        }
        let name = self.parser.previous.clone();
        let ghost before = *self;
        let global = self.identifier_constant(&name);
        proof {
            if !self.parser.had_error {
                assert(self.parser.chunk@.constants[global as int] == ConstantView::String(
                    name@.lexeme,
                ));
            }
        }
        global
    }

    /// Compiles `false`, `nil` or `true`.
    pub fn literal(&mut self, _can_assign: bool)
        requires
            old(self).inv(),
            old(self).steady(),
            old(self).parser.previous.kind == TokenKind::False || old(self).parser.previous.kind
                == TokenKind::Nil || old(self).parser.previous.kind == TokenKind::True,
        ensures
            final(self)@ == old(self)@.literal(),
            expressed(*old(self), *final(self)),
            same_but_chunk(*old(self), *final(self)),
            final(self).parser.chunk@ == old(self).parser.chunk@.write(
                op_byte(literal_op(old(self).parser.previous.kind)),
                old(self).parser.previous.line,
            ),
    {
        match self.parser.previous.kind {
            TokenKind::False => self.emit_op(OpCode::False),
            TokenKind::True => self.emit_op(OpCode::True),
            _ => self.emit_op(OpCode::Nil),
        }
    }

    /// Compiles a number literal: the literal becomes a constant, and the
    /// instruction that loads it is written.
    pub fn number(&mut self, _can_assign: bool)
        requires
            old(self).inv(),
            old(self).steady(),
        ensures
            final(self)@ == old(self)@.number(),
            expressed(*old(self), *final(self)),
            final(self).parser.current == old(self).parser.current,
            final(self).parser.previous == old(self).parser.previous,
            final(self).parser.scanner == old(self).parser.scanner,
            final(self).parser.chunk@ == old(self).parser.chunk@.add_constant(
                ConstantView::Number(old(self).parser.previous@.lexeme),
            ).write(op_byte(OpCode::Constant), old(self).parser.previous.line).write(
                if old(self).parser.chunk@.constants.len() > u8::MAX {
                    0u8
                } else {
                    old(self).parser.chunk@.constants.len() as u8
                },
                old(self).parser.previous.line,
            ),
    {
        let text = copy_bytes(self.parser.previous.lexeme.as_slice());
        self.emit_constant(Constant::Number(text));
    }

    /// Compiles a string literal: what stands between its quotes becomes a
    /// constant, and the instruction that loads it is written.
    pub fn string(&mut self, _can_assign: bool)
        requires
            old(self).inv(),
            old(self).steady(),
            old(self).parser.previous.kind == TokenKind::String,
        ensures
            final(self)@ == old(self)@.string(),
            expressed(*old(self), *final(self)),
            final(self).parser.current == old(self).parser.current,
            final(self).parser.previous == old(self).parser.previous,
            final(self).parser.scanner == old(self).parser.scanner,
            final(self).parser.chunk@ == old(self).parser.chunk@.add_constant(
                ConstantView::String(
                    old(self).parser.previous@.lexeme.subrange(
                        1,
                        old(self).parser.previous@.lexeme.len() - 1,
                    ),
                ),
            ).write(op_byte(OpCode::Constant), old(self).parser.previous.line).write(
                if old(self).parser.chunk@.constants.len() > u8::MAX {
                    0u8
                } else {
                    old(self).parser.chunk@.constants.len() as u8
                },
                old(self).parser.previous.line,
            ),
    {
        let lexeme = self.parser.previous.lexeme.as_slice();
        let inner = copy_bytes(slice_subrange(lexeme, 1, lexeme.len() - 1));
        self.emit_constant(Constant::String(inner));
    }

    /// Ends the program with a `Return`.
    pub fn end_compiler(&mut self)
        ensures
            final(self)@ == old(self)@.emit_op(OpCode::Return),
            same_but_chunk(*old(self), *final(self)),
            final(self).parser.chunk@ == old(self).parser.chunk@.write(
                op_byte(OpCode::Return),
                old(self).parser.previous.line,
            ),
    {
        self.emit_return();
    }
}

/// Locals declared after locals declared are locals declared.
pub proof fn lemma_declares_twice(
    first: Seq<LocalView>,
    second: Seq<LocalView>,
    third: Seq<LocalView>,
    depth: int,
)
    requires
        declares(first, second, depth),
        declares(second, third, depth),
    ensures
        declares(first, third, depth),
{
    assert forall|i: int| first.len() <= i < third.len() implies (#[trigger] third[i]).depth
        == depth by {
        if i < second.len() {
            assert(third[i] == second[i]);
        }
    }
}

/// What a compilation does to its chunk. Code, lines and constants are added
/// at the end, a line for each byte of code. The code added ends in `Return`.
/// Where `ok` is set, the code added can run: started where it begins, with
/// an empty stack, the machine finds each instruction whole and with its
/// operands, and reaches the `Return` with an empty stack.
pub open spec fn compiled(before: ChunkView, after: ChunkView, ok: bool) -> bool {
    &&& after.extends(before)
    &&& after.code.len() - before.code.len() == after.lines.len() - before.lines.len()
    &&& after.code.len() > before.code.len()
    &&& after.code.last() == op_byte(OpCode::Return)
    &&& framed(after.code, before.code.len() as int, after.code.len() as int)
    &&& ok ==> walk(after, before.code.len() as int, 0, after.code.len() - 1) == Some(0int)
}

/// Compiles `source` into `chunk`. The result says whether the source is free
/// of errors; each error found adds a diagnostic to `errors`. The chunk is
/// added to in either case, and must not be run after an error.
pub fn compile(source: &[u8], chunk: &mut Chunk, errors: &mut Vec<Vec<u8>>) -> (ok: bool)
    requires
        source@.len() <= isize::MAX,
    ensures
        (final(chunk)@, final(errors)@.map_values(|line: Vec<u8>| line@), ok) == compilation(
            source@,
            old(chunk)@,
            old(errors)@.map_values(|line: Vec<u8>| line@),
        ),
        compiled(old(chunk)@, final(chunk)@, ok),
        old(errors)@.map_values(|line: Vec<u8>| line@).is_prefix_of(
            final(errors)@.map_values(|line: Vec<u8>| line@),
        ),
        ok <==> final(errors)@.len() == old(errors)@.len(),
{
    let mut taken_chunk = Chunk::new();
    core::mem::swap(chunk, &mut taken_chunk);
    let mut taken_errors: Vec<Vec<u8>> = Vec::new();
    core::mem::swap(errors, &mut taken_errors);
    let scanner = Scanner::new(source);
    let parser = Parser::new(scanner, taken_chunk, taken_errors);
    let mut compiler = Compiler::new(parser);
    let ghost start = compiler;
    compiler.advance();
    let ghost first = compiler@;
    loop
        invariant_except_break
            compiler@.program() == first.program(),
        invariant
            first == start@.advance(),
            compiler.inv(),
            compiler.settled(),
            compiler.level(),
            compiler.scope_depth == 0,
            follows(start, compiler),
            start.parser.chunk@ == old(chunk)@,
            start.errors() == old(errors)@.map_values(|line: Vec<u8>| line@),
            start.base@ == old(chunk)@.code.len(),
            !start.parser.had_error,
        ensures
            compiler@ == first.program(),
        decreases compiler.remaining(),
    {
        if compiler.matches(TokenKind::Eof) {
            break ;
        }
        compiler.declaration();
    }
    let ghost before = compiler;
    compiler.end_compiler();
    proof {
        lemma_framed_push(
            before.parser.chunk.code@,
            compiler.parser.chunk.code@,
            before.base@,
            OpCode::Return,
        );
        assert(compiler.locals@.len() == 0) by {
            if compiler.locals@.len() > 0 {
                assert(compiler.locals_view()[0].depth == compiler.locals@[0].depth);
            }
        }
        if !compiler.parser.had_error {
            lemma_walk_extends(
                before.parser.chunk@,
                compiler.parser.chunk@,
                before.base@,
                0,
                before.parser.chunk.code@.len() as int,
            );
        }
    }
    let ok = !compiler.parser.had_error;
    *chunk = compiler.parser.chunk;
    *errors = compiler.parser.errors;
    ok
}

/// At the top level, the code of a declaration or statement that compiled
/// without error leaves the stack as deep as it finds it, however deep that
/// is.
pub proof fn lemma_statement_balanced(before: Compiler, after: Compiler, depth: int)
    requires
        before.inv(),
        before.settled(),
        before.level(),
        before.scope_depth == 0,
        stated(before, after),
        !after.parser.had_error,
        depth >= 0,
    ensures
        walk(
            after.parser.chunk@,
            before.parser.chunk.code@.len() as int,
            depth,
            after.parser.chunk.code@.len() as int,
        ) == Some(depth),
{
    let first = before.parser.chunk.code@.len() as int;
    let last = after.parser.chunk.code@.len() as int;
    assert(before.locals@.len() == 0) by {
        if before.locals@.len() > 0 {
            assert(before.locals_view()[0].depth == before.locals@[0].depth);
        }
    }
    assert(after.locals@.len() == 0) by {
        if after.locals@.len() > 0 {
            assert(after.locals_view()[0].depth == after.locals@[0].depth);
        }
    }
    lemma_walk_extends(before.parser.chunk@, after.parser.chunk@, before.base@, 0, first);
    lemma_walk_join(after.parser.chunk@, before.base@, 0, first, last);
    lemma_walk_deeper(after.parser.chunk@, first, 0, last, depth);
}

} // verus!
