//! What the compiler makes of a source text, stated on the compiler's
//! mathematical state.
//!
//! Each function here says what the step of the same name of
//! [`crate::compiler::Compiler`] does to the state. The steps that call each
//! other are defined by recursion on what is left of the source. So that the
//! recursion is well founded, a step hands the state on only if it has less
//! of the source left than the state the step began with, or no more where
//! that is enough; every state that a compilation reaches has.

use vstd::prelude::*;
use vstd::string::StringSliceAdditionalSpecFns;
use crate::chunk::{op_byte, ChunkView, ConstantView, OpCode};
use crate::compiler::{
    binary_code, declared_in, diagnostic, higher, kept, level_of, literal_op, precedence_of,
    prefix_of, resolved, skip_errors, unary_code, with_pops, MAX_LOCALS, UNDEFINED, LocalView,
    ParseFn, Precedence,
};
use crate::scanner::{next_end, next_token, trivia_end};
use crate::token::{TokenKind, TokenView};

verus! {

/// The mathematical value of a [`crate::compiler::Compiler`].
pub struct CompilerView {
    pub source: Seq<u8>,
    /// Where the token in hand begins.
    pub start: int,
    /// Where the next scan begins.
    pub position: int,
    pub current: TokenView,
    pub previous: TokenView,
    pub had_error: bool,
    pub panic_mode: bool,
    pub chunk: ChunkView,
    pub errors: Seq<Seq<u8>>,
    pub locals: Seq<LocalView>,
    pub scope_depth: int,
}

/// The token that is in hand before the first one is scanned.
pub open spec fn no_token() -> TokenView {
    TokenView { kind: TokenKind::Eof, lexeme: Seq::empty(), line: 0 }
}

/// The state in which a compilation of `source` begins, adding to `chunk`
/// and to `errors`.
pub open spec fn initial(source: Seq<u8>, chunk: ChunkView, errors: Seq<Seq<u8>>) -> CompilerView {
    CompilerView {
        source,
        start: 0,
        position: 0,
        current: no_token(),
        previous: no_token(),
        had_error: false,
        panic_mode: false,
        chunk,
        errors,
        locals: Seq::empty(),
        scope_depth: 0,
    }
}

/// The code that sets a variable, given the code that gets it.
pub open spec fn setter(get_op: OpCode) -> OpCode {
    if get_op == OpCode::GetLocal { OpCode::SetLocal } else { OpCode::SetGlobal }
}

impl CompilerView {
    /// How much of the source lies at or after the start of the token in
    /// hand.
    pub open spec fn remaining(self) -> int {
        self.source.len() - self.start
    }

    /// Whether less of the source is left in this state than in `other`.
    pub open spec fn before(self, other: CompilerView) -> bool {
        0 <= self.remaining() < other.remaining()
    }

    /// Whether no more of the source is left in this state than in `other`.
    pub open spec fn within(self, other: CompilerView) -> bool {
        0 <= self.remaining() <= other.remaining()
    }

    /// A diagnostic at `token`: in panic mode nothing, otherwise the
    /// diagnostic is added and both flags are set.
    #[verifier::opaque]
    pub open spec fn report(self, token: TokenView, message: Seq<u8>) -> CompilerView {
        if self.panic_mode {
            self
        } else {
            CompilerView {
                panic_mode: true,
                had_error: true,
                errors: self.errors.push(diagnostic(token, message)),
                ..self
            }
        }
    }

    /// The next token that is no `Error` is taken in hand; if an `Error`
    /// token comes first, it is reported.
    #[verifier::opaque]
    pub open spec fn advance(self) -> CompilerView {
        let first = next_token(self.source, self.position);
        let from = skip_errors(self.source, self.position);
        let reported = if first.kind == TokenKind::Error {
            self.report(first, first.lexeme)
        } else {
            self
        };
        CompilerView {
            start: trivia_end(self.source, from, false),
            position: next_end(self.source, from),
            current: next_token(self.source, from),
            previous: self.current,
            ..reported
        }
    }

    /// The token in hand is passed over if it is of kind `expected`;
    /// otherwise `message` is reported at it.
    #[verifier::opaque]
    pub open spec fn consume(self, expected: TokenKind, message: Seq<u8>) -> CompilerView {
        if self.current.kind == expected {
            self.advance()
        } else {
            self.report(self.current, message)
        }
    }

    /// A byte of code, from the line of the token before the one in hand.
    pub open spec fn emit(self, byte: u8) -> CompilerView {
        CompilerView { chunk: self.chunk.write(byte, self.previous.line as usize), ..self }
    }

    /// An instruction without operand.
    pub open spec fn emit_op(self, op: OpCode) -> CompilerView {
        self.emit(op_byte(op))
    }

    /// An instruction and its operand.
    pub open spec fn emit_op_with(self, op: OpCode, operand: u8) -> CompilerView {
        self.emit(op_byte(op)).emit(operand)
    }

    /// The bytes `code`, one after the other.
    pub open spec fn emit_all(self, code: Seq<u8>) -> CompilerView
        decreases code.len(),
    {
        if code.len() == 0 {
            self
        } else {
            self.emit_all(code.drop_last()).emit(code.last())
        }
    }

    /// The index under which `constant` is added to the chunk: its place
    /// among the constants, or 0 where that place is beyond 255.
    pub open spec fn constant_index(self) -> u8 {
        if self.chunk.constants.len() > u8::MAX { 0 } else { self.chunk.constants.len() as u8 }
    }

    /// `constant` is added to the chunk; a place beyond 255 is reported.
    #[verifier::opaque]
    pub open spec fn make_constant(self, constant: ConstantView) -> CompilerView {
        let added = CompilerView { chunk: self.chunk.add_constant(constant), ..self };
        if self.chunk.constants.len() > u8::MAX {
            added.report(self.previous, "Too many constants in one chunk.".spec_bytes())
        } else {
            added
        }
    }

    /// `constant` is added to the chunk, and the instruction that loads it
    /// is written.
    #[verifier::opaque]
    pub open spec fn emit_constant(self, constant: ConstantView) -> CompilerView {
        self.make_constant(constant).emit_op_with(OpCode::Constant, self.constant_index())
    }

    /// A block is left: the locals declared in it go, and a `Pop` is written
    /// for each.
    #[verifier::opaque]
    pub open spec fn end_scope(self) -> CompilerView {
        let stay = kept(self.locals, self.scope_depth - 1, self.locals.len() as int);
        CompilerView {
            scope_depth: self.scope_depth - 1,
            locals: self.locals.take(stay),
            chunk: with_pops(self.chunk, self.locals.len() - stay, self.previous.line as usize),
            ..self
        }
    }

    /// A block is entered.
    pub open spec fn begin_scope(self) -> CompilerView {
        CompilerView { scope_depth: self.scope_depth + 1, ..self }
    }

    /// The variable named by the token before the one in hand is declared:
    /// outside any block nothing happens; inside a block a local comes into
    /// scope, not yet defined, unless the block has declared the name or 256
    /// locals are in scope, which is reported.
    #[verifier::opaque]
    pub open spec fn declare_variable(self) -> CompilerView {
        if self.scope_depth == 0 {
            self
        } else if declared_in(self.locals, self.previous.lexeme, self.scope_depth) {
            self.report(
                self.previous,
                "Already a variable with this name in this scope.".spec_bytes(),
            )
        } else if self.locals.len() == MAX_LOCALS {
            self.report(self.previous, "Too many local variables in function.".spec_bytes())
        } else {
            CompilerView {
                locals: self.locals.push(
                    LocalView { name: self.previous, depth: UNDEFINED as int },
                ),
                ..self
            }
        }
    }

    /// The innermost local, if it is not yet defined, is defined in the
    /// block at hand.
    #[verifier::opaque]
    pub open spec fn mark_initialized(self) -> CompilerView {
        if self.locals.len() > 0 && self.locals.last().depth == UNDEFINED {
            CompilerView {
                locals: self.locals.update(
                    self.locals.len() - 1,
                    LocalView { name: self.locals.last().name, depth: self.scope_depth },
                ),
                ..self
            }
        } else {
            self
        }
    }

    /// The variable just declared is defined: a local is marked, for a
    /// global `DefineGlobal` is written.
    #[verifier::opaque]
    pub open spec fn define_variable(self, global: u8) -> CompilerView {
        if self.scope_depth > 0 {
            self.mark_initialized()
        } else {
            self.emit_op_with(OpCode::DefineGlobal, global)
        }
    }

    /// The name of a variable being declared is parsed and the variable is
    /// declared; the name of a global becomes a constant.
    #[verifier::opaque]
    pub open spec fn parse_variable(self, message: Seq<u8>) -> CompilerView {
        let declared = self.consume(TokenKind::Identifier, message).declare_variable();
        if declared.scope_depth > 0 {
            declared
        } else {
            declared.make_constant(ConstantView::String(declared.previous.lexeme))
        }
    }

    /// The operand of `DefineGlobal` for the variable that `parse_variable`
    /// parses.
    #[verifier::opaque]
    pub open spec fn parsed_global(self, message: Seq<u8>) -> u8 {
        let declared = self.consume(TokenKind::Identifier, message).declare_variable();
        if declared.scope_depth > 0 { 0 } else { declared.constant_index() }
    }

    /// `false`, `nil` or `true`.
    pub open spec fn literal(self) -> CompilerView {
        self.emit_op(literal_op(self.previous.kind))
    }

    /// A number literal.
    pub open spec fn number(self) -> CompilerView {
        self.emit_constant(ConstantView::Number(self.previous.lexeme))
    }

    /// A string literal, without its quotes.
    pub open spec fn string(self) -> CompilerView {
        self.emit_constant(
            ConstantView::String(self.previous.lexeme.subrange(1, self.previous.lexeme.len() - 1)),
        )
    }

    /// An expression.
    pub open spec fn expression(self) -> CompilerView
        decreases self.remaining(), 2int,
    {
        self.parse_precedence(Precedence::Assignment)
    }

    /// The rest of a parenthesized expression.
    pub open spec fn grouping(self) -> CompilerView
        decreases self.remaining(), 3int,
    {
        self.expression().consume(TokenKind::RParen, "Expect ')' after expression.".spec_bytes())
    }

    /// The operand of a unary operator, and the operator.
    pub open spec fn unary(self) -> CompilerView
        decreases self.remaining(), 3int,
    {
        self.parse_precedence(Precedence::Unary).emit_all(unary_code(self.previous.kind))
    }

    /// The right operand of a binary operator, and the operator.
    pub open spec fn binary(self) -> CompilerView
        decreases self.remaining(), 3int,
    {
        self.parse_precedence(higher(precedence_of(self.previous.kind))).emit_all(
            binary_code(self.previous.kind),
        )
    }

    /// An expression whose operators bind at least as tightly as
    /// `precedence`: what the next token begins, then the infix operators
    /// that bind tightly enough, each with its right operand. An `=` that
    /// is left over where an assignment could stand is reported.
    pub open spec fn parse_precedence(self, precedence: Precedence) -> CompilerView
        decreases self.remaining(), 1int,
    {
        let advanced = self.advance();
        let can_assign = level_of(precedence) <= level_of(Precedence::Assignment);
        let head = match prefix_of(advanced.previous.kind) {
            None => advanced.report(advanced.previous, "Expect expression.".spec_bytes()),
            Some(rule) => if advanced.before(self) {
                advanced.prefix(rule, can_assign)
            } else {
                advanced
            },
        };
        let whole = if head.within(self) {
            head.infix(precedence)
        } else {
            head
        };
        if can_assign && whole.current.kind == TokenKind::Equal {
            whole.advance().report(whole.current, "Invalid assignment target.".spec_bytes())
        } else {
            whole
        }
    }

    /// What the token just taken begins, parsed as `rule` says.
    pub open spec fn prefix(self, rule: ParseFn, can_assign: bool) -> CompilerView
        decreases self.remaining(), 5int,
    {
        match rule {
            ParseFn::Grouping => self.grouping(),
            ParseFn::Unary => self.unary(),
            ParseFn::Variable => self.variable(can_assign),
            ParseFn::String => self.string(),
            ParseFn::Number => self.number(),
            ParseFn::Literal => self.literal(),
            ParseFn::Binary => self,
        }
    }

    /// The infix operators that follow and bind at least as tightly as
    /// `precedence`, each with its right operand.
    pub open spec fn infix(self, precedence: Precedence) -> CompilerView
        decreases self.remaining(), 0int,
    {
        if level_of(precedence) <= level_of(precedence_of(self.current.kind)) {
            let advanced = self.advance();
            if advanced.before(self) {
                let applied = advanced.binary();
                if applied.before(self) {
                    applied.infix(precedence)
                } else {
                    applied
                }
            } else {
                advanced
            }
        } else {
            self
        }
    }

    /// A use of the variable named `name`: an assignment if `can_assign` is
    /// set and `=` follows, a read otherwise; of a local if `name` resolves
    /// to one, of a global otherwise.
    pub open spec fn named_variable(self, name: TokenView, can_assign: bool) -> CompilerView
        decreases self.remaining(), 3int,
    {
        let slot = resolved(self.locals, name.lexeme, self.locals.len() as int);
        let named = if slot != -1 {
            self
        } else {
            self.make_constant(ConstantView::String(name.lexeme))
        };
        let get_op = if slot != -1 { OpCode::GetLocal } else { OpCode::GetGlobal };
        let arg = if slot != -1 { slot as u8 } else { self.constant_index() };
        if can_assign && named.current.kind == TokenKind::Equal {
            let advanced = named.advance();
            if advanced.before(self) {
                advanced.expression().emit_op_with(setter(get_op), arg)
            } else {
                advanced
            }
        } else {
            named.emit_op_with(get_op, arg)
        }
    }

    /// A use of the variable named by the token just taken.
    pub open spec fn variable(self, can_assign: bool) -> CompilerView
        decreases self.remaining(), 4int,
    {
        self.named_variable(self.previous, can_assign)
    }

    /// The rest of a variable declaration.
    pub open spec fn var_declaration(self) -> CompilerView
        decreases self.remaining(), 3int,
    {
        let global = self.parsed_global("Expect variable name.".spec_bytes());
        let declared = self.parse_variable("Expect variable name.".spec_bytes());
        let valued = if declared.current.kind == TokenKind::Equal {
            let advanced = declared.advance();
            if advanced.within(self) {
                advanced.expression()
            } else {
                advanced
            }
        } else {
            declared.emit_op(OpCode::Nil)
        };
        valued.consume(
            TokenKind::Semicolon,
            "Expect ';' after variable declaration.".spec_bytes(),
        ).define_variable(global)
    }

    /// An expression statement.
    pub open spec fn expression_statement(self) -> CompilerView
        decreases self.remaining(), 3int,
    {
        self.expression().consume(
            TokenKind::Semicolon,
            "Expect ';' after expression.".spec_bytes(),
        ).emit_op(OpCode::Pop)
    }

    /// The rest of a print statement.
    pub open spec fn print_statement(self) -> CompilerView
        decreases self.remaining(), 3int,
    {
        self.expression().consume(
            TokenKind::Semicolon,
            "Expect ';' after value.".spec_bytes(),
        ).emit_op(OpCode::Print)
    }

    /// The rest of a block: declarations up to the closing brace.
    pub open spec fn block(self) -> CompilerView
        decreases self.remaining(), 7int,
    {
        if self.current.kind != TokenKind::RBrace && self.current.kind != TokenKind::Eof {
            let declared = self.declaration();
            if declared.before(self) {
                declared.block()
            } else {
                declared
            }
        } else {
            self.consume(TokenKind::RBrace, "Expect '}' after block.".spec_bytes())
        }
    }

    /// A statement.
    pub open spec fn statement(self) -> CompilerView
        decreases self.remaining(), 4int,
    {
        if self.current.kind == TokenKind::Print {
            let advanced = self.advance();
            if advanced.before(self) {
                advanced.print_statement()
            } else {
                advanced
            }
        } else if self.current.kind == TokenKind::LBrace {
            let advanced = self.advance();
            if advanced.before(self) {
                advanced.begin_scope().block().end_scope()
            } else {
                advanced
            }
        } else {
            self.expression_statement()
        }
    }

    /// Tokens are skipped up to a likely statement boundary.
    pub open spec fn skip(self) -> CompilerView
        decreases self.remaining(),
    {
        if self.current.kind == TokenKind::Eof || self.previous.kind == TokenKind::Semicolon
            || begins_statement(self.current.kind) {
            self
        } else {
            let advanced = self.advance();
            if advanced.before(self) {
                advanced.skip()
            } else {
                advanced
            }
        }
    }

    /// Panic mode ends, and tokens are skipped up to a likely statement
    /// boundary.
    pub open spec fn synchronize(self) -> CompilerView {
        (CompilerView { panic_mode: false, ..self }).skip()
    }

    /// A declaration: a variable declaration or a statement, and after an
    /// error the skip to the next statement boundary.
    pub open spec fn declaration(self) -> CompilerView
        decreases self.remaining(), 5int,
    {
        let declared = if self.current.kind == TokenKind::Var {
            let advanced = self.advance();
            if advanced.before(self) {
                advanced.var_declaration()
            } else {
                advanced
            }
        } else {
            self.statement()
        };
        if declared.panic_mode {
            declared.synchronize()
        } else {
            declared
        }
    }

    /// Declarations up to the end of the source.
    pub open spec fn program(self) -> CompilerView
        decreases self.remaining(),
    {
        if self.current.kind == TokenKind::Eof {
            self.advance()
        } else {
            let declared = self.declaration();
            if declared.before(self) {
                declared.program()
            } else {
                declared
            }
        }
    }
}

/// Whether a token of kind `kind` begins a statement, so that skipping
/// after an error stops at it.
pub open spec fn begins_statement(kind: TokenKind) -> bool {
    kind == TokenKind::Class || kind == TokenKind::Fun || kind == TokenKind::Var || kind
        == TokenKind::For || kind == TokenKind::If || kind == TokenKind::While || kind
        == TokenKind::Print || kind == TokenKind::Return
}

/// What compiling `source` gives: the chunk and the diagnostics, each added
/// to, and whether the source is free of errors.
pub open spec fn compilation(source: Seq<u8>, chunk: ChunkView, errors: Seq<Seq<u8>>) -> (
    ChunkView,
    Seq<Seq<u8>>,
    bool,
) {
    let done = initial(source, chunk, errors).advance().program().emit_op(OpCode::Return);
    (done.chunk, done.errors, !done.had_error)
}

} // verus!
