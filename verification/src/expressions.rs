//! Expressions: parsing by precedence climbing, and the code for each form.

use vstd::prelude::*;
use crate::chunk::{op_byte, operand_count, pops, pushes, ConstantView, OpCode};
use crate::compiler::{
    binary_code, ends_with, expressed, follows, get_rule, lemma_emit_all, precedence_of, resolved,
    unary_code, Compiler, ParseFn, Precedence,
};
use crate::model::CompilerView;
use crate::token::{Token, TokenKind};

verus! {

/// The instructions of the binary operator `kind`: one, or one and a `Not`
/// after it.
pub fn binary_ops(kind: TokenKind) -> (ops: (OpCode, Option<OpCode>))
    requires
        precedence_of(kind) != Precedence::Lowest,
    ensures
        pops(ops.0) == 2,
        pushes(ops.0) == 1,
        operand_count(ops.0) == 0,
        ops.1 is None || ops.1 == Some(OpCode::Not),
        binary_code(kind) == if ops.1 is None {
            seq![op_byte(ops.0)]
        } else {
            seq![op_byte(ops.0), op_byte(OpCode::Not)]
        },
{
    match kind {
        TokenKind::BangEqual => (OpCode::Equal, Some(OpCode::Not)),
        TokenKind::EqualEqual => (OpCode::Equal, None),
        TokenKind::Greater => (OpCode::Greater, None),
        TokenKind::GreaterEqual => (OpCode::Less, Some(OpCode::Not)),
        TokenKind::Less => (OpCode::Less, None),
        TokenKind::LessEqual => (OpCode::Greater, Some(OpCode::Not)),
        TokenKind::Plus => (OpCode::Add, None),
        TokenKind::Minus => (OpCode::Sub, None),
        TokenKind::Star => (OpCode::Mul, None),
        _ => (OpCode::Div, None),
    }
}

impl<'a> Compiler<'a> {
    /// Compiles an expression.
    pub fn expression(&mut self)
        requires
            old(self).inv(),
            old(self).steady(),
        ensures
            final(self)@ == old(self)@.expression(),
            expressed(*old(self), *final(self)),
            old(self).parser.current.kind != TokenKind::Eof ==> final(self).remaining() < old(
                self,
            ).remaining(),
        decreases old(self).remaining(), 1int,
    {
        self.parse_precedence(Precedence::Assignment);
    }

    /// Compiles the rest of a parenthesized expression, whose `(` was taken.
    pub fn grouping(&mut self, _can_assign: bool)
        requires
            old(self).inv(),
            old(self).steady(),
        ensures
            final(self)@ == old(self)@.grouping(),
            expressed(*old(self), *final(self)),
        decreases old(self).remaining(), 2int,
    {
        self.expression();
        self.consume(TokenKind::RParen, "Expect ')' after expression.".as_bytes());
    }

    /// Compiles the operand of a unary operator, which was taken, and then
    /// the operator.
    pub fn unary(&mut self, _can_assign: bool)
        requires
            old(self).inv(),
            old(self).steady(),
            old(self).parser.previous.kind == TokenKind::Minus || old(self).parser.previous.kind
                == TokenKind::Bang,
        ensures
            final(self)@ == old(self)@.unary(),
            expressed(*old(self), *final(self)),
            ends_with(final(self).parser.chunk@.code, unary_code(old(self).parser.previous.kind)),
        decreases old(self).remaining(), 2int,
    {
        let operator_kind = self.parser.previous.kind;
        self.parse_precedence(Precedence::Unary);
        proof {
            lemma_emit_all(self@, op_byte(OpCode::Negate), op_byte(OpCode::Not));
            lemma_emit_all(self@, op_byte(OpCode::Not), op_byte(OpCode::Not));
        }
        match operator_kind {
            TokenKind::Minus => self.emit_op(OpCode::Negate),
            _ => self.emit_op(OpCode::Not),
        }
        assert(self.parser.chunk@.code.subrange(
            self.parser.chunk@.code.len() - 1,
            self.parser.chunk@.code.len() as int,
        ) =~= unary_code(operator_kind));
    }

    /// Compiles the right operand of a binary operator, which was taken and
    /// whose left operand has been compiled, and then the operator.
    pub fn binary(&mut self, _can_assign: bool)
        requires
            old(self).inv(),
            precedence_of(old(self).parser.previous.kind) != Precedence::Lowest,
            !old(self).parser.had_error ==> old(self).depth() is Some && old(self).depth().unwrap()
                >= old(self).live() + 1,
        ensures
            final(self)@ == old(self)@.binary(),
            final(self).inv(),
            follows(*old(self), *final(self)),
            final(self).locals == old(self).locals,
            final(self).scope_depth == old(self).scope_depth,
            !final(self).parser.had_error ==> final(self).depth() == old(self).depth(),
            ends_with(final(self).parser.chunk@.code, binary_code(old(self).parser.previous.kind)),
        decreases old(self).remaining(), 2int,
    {
        let operator_kind = self.parser.previous.kind;
        let rule = get_rule(operator_kind);
        self.parse_precedence(rule.precedence.next());
        let ghost operand = self@;
        let (first, second) = binary_ops(operator_kind);
        self.emit_op(first);
        match second {
            Some(second) => {
                self.emit_op(second);
            },
            None => {},
        }
        proof {
            let code = self.parser.chunk@.code;
            let tail = binary_code(operator_kind);
            lemma_emit_all(operand, op_byte(first), op_byte(OpCode::Not));
            assert(code =~= operand.chunk.code + tail);
            assert(code.subrange(code.len() - tail.len(), code.len() as int) =~= tail);
        }
    }

    /// How the variable named by `name` is reached: by `GetLocal` and its
    /// stack slot if the name resolves to a local, else by `GetGlobal` and the
    /// constant that its name is made.
    pub fn variable_access(&mut self, name: &Token) -> (access: (OpCode, u8))
        requires
            old(self).inv(),
        ensures
            final(self).inv(),
            follows(*old(self), *final(self)),
            final(self).locals == old(self).locals,
            final(self).scope_depth == old(self).scope_depth,
            final(self).parser.current == old(self).parser.current,
            final(self).parser.previous == old(self).parser.previous,
            final(self).parser.scanner == old(self).parser.scanner,
            old(self).depth() is Some ==> final(self).depth() == old(self).depth(),
            ({
                let slot = resolved(
                    old(self)@.locals,
                    name@.lexeme,
                    old(self)@.locals.len() as int,
                );
                if slot != -1 {
                    &&& access == (OpCode::GetLocal, slot as u8)
                    &&& final(self)@ == old(self)@
                    &&& access.1 < old(self).live()
                } else {
                    &&& access == (OpCode::GetGlobal, old(self)@.constant_index())
                    &&& final(self)@ == old(self)@.make_constant(ConstantView::String(name@.lexeme))
                    &&& !final(self).parser.had_error ==> {
                        &&& access.1 < final(self).parser.chunk@.constants.len()
                        &&& final(self).parser.chunk@.constants[access.1 as int] is String
                    }
                }
            }),
    {
        let slot = self.resolve_local(name);
        if slot != -1 {
            (OpCode::GetLocal, slot as u8)
        } else {
            let arg = self.identifier_constant(name);
            proof {
                reveal(CompilerView::make_constant);
                if !self.parser.had_error {
                    assert(self.parser.chunk@.constants[arg as int] is String);
                }
            }
            (OpCode::GetGlobal, arg)
        }
    }

    /// Compiles a use of the variable named by `name`: an assignment if
    /// `can_assign` is set and `=` follows, a read otherwise. A name that
    /// resolves to a local is compiled to its stack slot, any other to a
    /// global.
    pub fn named_variable(&mut self, name: &Token, can_assign: bool)
        requires
            old(self).inv(),
            old(self).steady(),
        ensures
            final(self)@ == old(self)@.named_variable(name@, can_assign),
            expressed(*old(self), *final(self)),
        decreases old(self).remaining(), 2int,
    {
        let (get_op, arg) = self.variable_access(name);
        let ghost named = *self;
        if can_assign && self.matches(TokenKind::Equal) {
            self.expression();
            proof {
                if !self.parser.had_error && get_op == OpCode::GetGlobal {
                    assert(self.parser.chunk@.constants[arg as int]
                        == named.parser.chunk@.constants[arg as int]);
                }
            }
            let set_op = match get_op {
                OpCode::GetLocal => OpCode::SetLocal,
                _ => OpCode::SetGlobal,
            };
            self.emit_op_with(set_op, arg);
        } else {
            self.emit_op_with(get_op, arg);
        }
    }

    /// Compiles a use of the variable named by the token that was taken.
    pub fn variable(&mut self, can_assign: bool)
        requires
            old(self).inv(),
            old(self).steady(),
        ensures
            final(self)@ == old(self)@.variable(can_assign),
            expressed(*old(self), *final(self)),
        decreases old(self).remaining(), 3int,
    {
        let name = self.parser.previous.clone();
        self.named_variable(&name, can_assign);
    }

    /// Compiles an expression whose operators bind at least as tightly as
    /// `precedence`: what the next token begins, then every infix operator
    /// that binds tightly enough, with its right operand.
    pub fn parse_precedence(&mut self, precedence: Precedence)
        requires
            old(self).inv(),
            old(self).steady(),
            precedence != Precedence::Lowest,
        ensures
            final(self)@ == old(self)@.parse_precedence(precedence),
            expressed(*old(self), *final(self)),
            old(self).parser.current.kind != TokenKind::Eof ==> final(self).remaining() < old(
                self,
            ).remaining(),
        decreases old(self).remaining(), 0int,
    {
        self.advance();
        let prefix_rule = get_rule(self.parser.previous.kind).prefix;
        let can_assign = precedence.level() <= Precedence::Assignment.level();
        match prefix_rule {
            None => {
                self.error("Expect expression.".as_bytes());
            },
            Some(ParseFn::Grouping) => self.grouping(can_assign),
            Some(ParseFn::Unary) => self.unary(can_assign),
            Some(ParseFn::Variable) => self.variable(can_assign),
            Some(ParseFn::String) => self.string(can_assign),
            Some(ParseFn::Number) => self.number(can_assign),
            Some(ParseFn::Literal) => self.literal(can_assign),
            Some(ParseFn::Binary) => {},
        }
        let ghost head = self@;
        while precedence.level() <= get_rule(self.parser.current.kind).precedence.level()
            invariant
                old(self).inv(),
                old(self).steady(),
                precedence != Precedence::Lowest,
                expressed(*old(self), *self),
                self@.infix(precedence) == head.infix(precedence),
                self.remaining() <= old(self).remaining(),
                old(self).parser.current.kind != TokenKind::Eof ==> self.remaining() < old(
                    self,
                ).remaining(),
            decreases self.remaining(),
        {
            self.advance();
            match get_rule(self.parser.previous.kind).infix {
                Some(_) => self.binary(can_assign),
                None => {},
            }
        }
        if can_assign && self.matches(TokenKind::Equal) {
            self.error("Invalid assignment target.".as_bytes());
        }
    }
}

} // verus!
