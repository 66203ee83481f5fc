//! Declarations and statements.

use vstd::prelude::*;
use crate::chunk::OpCode;
use crate::compiler::{follows, kept, lemma_declares_twice, lemma_kept, stated, Compiler, LocalView};
use crate::model::CompilerView;
use crate::token::TokenKind;

verus! {

impl<'a> Compiler<'a> {
    /// Compiles the rest of a variable declaration, whose `var` was taken:
    /// the name, the initializer or `nil` in its place, and the definition.
    pub fn var_declaration(&mut self)
        requires
            old(self).inv(),
            old(self).settled(),
            old(self).level(),
        ensures
            final(self)@ == old(self)@.var_declaration(),
            stated(*old(self), *final(self)),
        decreases old(self).remaining(), 2int,
    {
        let global = self.parse_variable("Expect variable name.".as_bytes());
        let ghost declared = *self;
        if self.matches(TokenKind::Equal) {
            self.expression();
        } else {
            self.emit_op(OpCode::Nil);
        }
        self.consume(TokenKind::Semicolon, "Expect ';' after variable declaration.".as_bytes());
        proof {
            if !self.parser.had_error && self.scope_depth == 0 {
                assert(!declared.parser.had_error);
                assert(self.parser.chunk@.constants[global as int]
                    == declared.parser.chunk@.constants[global as int]);
            }
        }
        let ghost before = *self;
        self.define_variable(global);
        proof {
            let first = old(self).locals_view();
            let last = self.locals_view();
            if self.scope_depth > 0 && before.locals != old(self).locals {
                assert(before.locals_view() == declared.locals_view());
                assert(last =~= first.push(
                    LocalView {
                        name: declared.parser.previous@,
                        depth: self.scope_depth as int,
                    },
                ));
            }
        }
    }

    /// Compiles an expression statement: the expression, and a `Pop` that
    /// drops its value.
    pub fn expression_statement(&mut self)
        requires
            old(self).inv(),
            old(self).settled(),
            old(self).level(),
        ensures
            final(self)@ == old(self)@.expression_statement(),
            stated(*old(self), *final(self)),
            final(self).locals == old(self).locals,
            old(self).parser.current.kind != TokenKind::Eof ==> final(self).remaining() < old(
                self,
            ).remaining(),
        decreases old(self).remaining(), 2int,
    {
        self.expression();
        self.consume(TokenKind::Semicolon, "Expect ';' after expression.".as_bytes());
        self.emit_op(OpCode::Pop);
    }

    /// Compiles the rest of a print statement, whose `print` was taken: the
    /// expression, and a `Print` that writes its value.
    pub fn print_statement(&mut self)
        requires
            old(self).inv(),
            old(self).settled(),
            old(self).level(),
        ensures
            final(self)@ == old(self)@.print_statement(),
            stated(*old(self), *final(self)),
            final(self).locals == old(self).locals,
        decreases old(self).remaining(), 2int,
    {
        self.expression();
        self.consume(TokenKind::Semicolon, "Expect ';' after value.".as_bytes());
        self.emit_op(OpCode::Print);
    }

    /// Compiles the rest of a block, whose `{` was taken: declarations up to
    /// the closing `}`.
    pub fn block(&mut self)
        requires
            old(self).inv(),
            old(self).settled(),
            old(self).level(),
        ensures
            final(self)@ == old(self)@.block(),
            stated(*old(self), *final(self)),
        decreases old(self).remaining(), 5int,
    {
        while !self.check(TokenKind::RBrace) && !self.check(TokenKind::Eof)
            invariant
                old(self).inv(),
                stated(*old(self), *self),
                self@.block() == old(self)@.block(),
                self.remaining() <= old(self).remaining(),
            decreases self.remaining(),
        {
            let ghost before = *self;
            self.declaration();
            proof {
                lemma_declares_twice(
                    old(self).locals_view(),
                    before.locals_view(),
                    self.locals_view(),
                    self.scope_depth as int,
                );
            }
        }
        self.consume(TokenKind::RBrace, "Expect '}' after block.".as_bytes());
    }

    /// Compiles a statement: a print statement, a block, or an expression
    /// statement. The locals in scope after it are those before it.
    pub fn statement(&mut self)
        requires
            old(self).inv(),
            old(self).settled(),
            old(self).level(),
        ensures
            final(self)@ == old(self)@.statement(),
            stated(*old(self), *final(self)),
            final(self).locals_view() == old(self).locals_view(),
            old(self).parser.current.kind != TokenKind::Eof ==> final(self).remaining() < old(
                self,
            ).remaining(),
        decreases old(self).remaining(), 3int,
    {
        if self.matches(TokenKind::Print) {
            self.print_statement();
        } else if self.matches(TokenKind::LBrace) {
            self.begin_scope();
            self.block();
            let ghost inner = self.locals_view();
            proof {
                let outer = old(self).locals_view();
                let deep = self.scope_depth as int;
                lemma_kept(inner, deep, deep - 1, inner.len() as int);
                let k = kept(inner, deep - 1, inner.len() as int);
                if k < outer.len() {
                    assert(inner[k] == outer[k]);
                }
                if k > outer.len() {
                    assert(inner[outer.len() as int].depth == deep);
                }
                assert(inner.take(outer.len() as int) =~= outer);
            }
            self.end_scope();
        } else {
            self.expression_statement();
        }
    }

    /// Skips tokens up to a likely statement boundary: past a `;`, or up to
    /// a keyword that begins a statement. Diagnostics are reported again from
    /// there on.
    pub fn synchronize(&mut self)
        requires
            old(self).inv(),
        ensures
            final(self)@ == old(self)@.synchronize(),
            final(self).inv(),
            follows(*old(self), *final(self)),
            final(self).locals == old(self).locals,
            final(self).scope_depth == old(self).scope_depth,
            final(self).parser.chunk == old(self).parser.chunk,
    {
        self.parser.panic_mode = false;
        let ghost entry = self@;
        while self.parser.current.kind != TokenKind::Eof
            invariant
                old(self).inv(),
                self.inv(),
                self@.skip() == entry.skip(),
                entry == (CompilerView { panic_mode: false, ..old(self)@ }),
                follows(*old(self), *self),
                self.locals == old(self).locals,
                self.scope_depth == old(self).scope_depth,
                self.parser.chunk == old(self).parser.chunk,
            decreases self.remaining(),
        {
            if self.parser.previous.kind == TokenKind::Semicolon {
                return ;
            }
            match self.parser.current.kind {
                TokenKind::Class
                | TokenKind::Fun
                | TokenKind::Var
                | TokenKind::For
                | TokenKind::If
                | TokenKind::While
                | TokenKind::Print
                | TokenKind::Return => {
                    return ;
                },
                _ => {},
            }
            self.advance();
        }
    }

    /// Compiles a declaration: a variable declaration or a statement. After
    /// an error it skips to the next statement boundary.
    pub fn declaration(&mut self)
        requires
            old(self).inv(),
            old(self).settled(),
            old(self).level(),
        ensures
            final(self)@ == old(self)@.declaration(),
            stated(*old(self), *final(self)),
            old(self).parser.current.kind != TokenKind::Eof ==> final(self).remaining() < old(
                self,
            ).remaining(),
        decreases old(self).remaining(), 4int,
    {
        if self.matches(TokenKind::Var) {
            self.var_declaration();
        } else {
            self.statement();
        }
        if self.parser.panic_mode {
            self.synchronize();
        }
    }
}

} // verus!
