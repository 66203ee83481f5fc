use lox::chunk::{Chunk, Constant, OpCode};
use lox::compiler::{compile, get_rule, Compiler, ParseFn, Parser, Precedence};
use lox::scanner::Scanner;
use lox::token::{Token, TokenKind};
use lox::vm::{Action, ArithOp, InterpretResult, Phase, VM};

const ALL_OPS: [OpCode; 21] = [
    OpCode::Constant,
    OpCode::Nil,
    OpCode::True,
    OpCode::False,
    OpCode::Pop,
    OpCode::GetLocal,
    OpCode::SetLocal,
    OpCode::GetGlobal,
    OpCode::DefineGlobal,
    OpCode::SetGlobal,
    OpCode::Equal,
    OpCode::Greater,
    OpCode::Less,
    OpCode::Add,
    OpCode::Sub,
    OpCode::Mul,
    OpCode::Div,
    OpCode::Not,
    OpCode::Negate,
    OpCode::Print,
    OpCode::Return,
];

fn compiled(source: &str) -> (bool, Chunk, Vec<String>) {
    let mut chunk = Chunk::new();
    let mut errors = Vec::new();
    let ok = compile(source.as_bytes(), &mut chunk, &mut errors);
    let errors = errors.into_iter().map(|line| String::from_utf8(line).unwrap()).collect();
    (ok, chunk, errors)
}

fn ops(bytes: &[(OpCode, Option<u8>)]) -> Vec<u8> {
    let mut code = Vec::new();
    for (op, operand) in bytes {
        code.push(op.to_byte());
        if let Some(operand) = operand {
            code.push(*operand);
        }
    }
    code
}

fn constants(chunk: &Chunk) -> Vec<String> {
    chunk
        .constants
        .iter()
        .map(|constant| match constant {
            Constant::Number(text) => format!("n:{}", String::from_utf8_lossy(text)),
            Constant::String(bytes) => format!("s:{}", String::from_utf8_lossy(bytes)),
        })
        .collect()
}

#[test]
fn opcodes_are_numbered_in_order() {
    for (byte, op) in ALL_OPS.iter().enumerate() {
        assert_eq!(op.to_byte(), byte as u8);
        assert_eq!(OpCode::from_byte(byte as u8), Some(*op));
    }
    for byte in 21..=255u8 {
        assert_eq!(OpCode::from_byte(byte), None);
    }
}

#[test]
fn six_opcodes_have_one_operand() {
    for op in ALL_OPS {
        let expected = matches!(
            op,
            OpCode::Constant
                | OpCode::GetLocal
                | OpCode::SetLocal
                | OpCode::GetGlobal
                | OpCode::DefineGlobal
                | OpCode::SetGlobal
        );
        assert_eq!(op.operands(), if expected { 1 } else { 0 });
    }
}

#[test]
fn chunk_write_keeps_code_and_lines_parallel() {
    let mut chunk = Chunk::new();
    chunk.write(OpCode::Nil.to_byte(), 3);
    chunk.write(OpCode::Return.to_byte(), 4);
    assert_eq!(chunk.code, vec![1, 20]);
    assert_eq!(chunk.lines, vec![3, 4]);
    assert_eq!(chunk.add_constant(Constant::String(b"a".to_vec())), 0);
    assert_eq!(chunk.add_constant(Constant::Number(b"1".to_vec())), 1);
    assert_eq!(constants(&chunk), vec!["s:a", "n:1"]);
}

#[test]
fn precedence_ladder() {
    let ladder = [
        Precedence::Lowest,
        Precedence::Assignment,
        Precedence::Or,
        Precedence::And,
        Precedence::Equality,
        Precedence::Comparison,
        Precedence::Term,
        Precedence::Factor,
        Precedence::Unary,
        Precedence::Call,
        Precedence::Primary,
    ];
    for (level, precedence) in ladder.iter().enumerate() {
        assert_eq!(precedence.level(), level as u8);
        if level < 10 {
            assert_eq!(precedence.next(), ladder[level + 1]);
        }
    }
}

#[test]
fn rule_table() {
    let minus = get_rule(TokenKind::Minus);
    assert_eq!(minus.prefix, Some(ParseFn::Unary));
    assert_eq!(minus.infix, Some(ParseFn::Binary));
    assert_eq!(minus.precedence, Precedence::Term);
    let bang = get_rule(TokenKind::Bang);
    assert_eq!((bang.prefix, bang.infix, bang.precedence), (Some(ParseFn::Unary), None, Precedence::Lowest));
    let paren = get_rule(TokenKind::LParen);
    assert_eq!((paren.prefix, paren.infix, paren.precedence), (Some(ParseFn::Grouping), None, Precedence::Lowest));
    for kind in [TokenKind::Plus] {
        let rule = get_rule(kind);
        assert_eq!((rule.prefix, rule.infix, rule.precedence), (None, Some(ParseFn::Binary), Precedence::Term));
    }
    for kind in [TokenKind::Star, TokenKind::Slash] {
        let rule = get_rule(kind);
        assert_eq!((rule.prefix, rule.infix, rule.precedence), (None, Some(ParseFn::Binary), Precedence::Factor));
    }
    for kind in [TokenKind::BangEqual, TokenKind::EqualEqual] {
        let rule = get_rule(kind);
        assert_eq!((rule.prefix, rule.infix, rule.precedence), (None, Some(ParseFn::Binary), Precedence::Equality));
    }
    for kind in [TokenKind::Less, TokenKind::LessEqual, TokenKind::Greater, TokenKind::GreaterEqual] {
        let rule = get_rule(kind);
        assert_eq!((rule.prefix, rule.infix, rule.precedence), (None, Some(ParseFn::Binary), Precedence::Comparison));
    }
    assert_eq!(get_rule(TokenKind::Identifier).prefix, Some(ParseFn::Variable));
    assert_eq!(get_rule(TokenKind::String).prefix, Some(ParseFn::String));
    assert_eq!(get_rule(TokenKind::Number).prefix, Some(ParseFn::Number));
    for kind in [TokenKind::False, TokenKind::True, TokenKind::Nil] {
        assert_eq!(get_rule(kind).prefix, Some(ParseFn::Literal));
    }
    for kind in [
        TokenKind::RParen,
        TokenKind::LBrace,
        TokenKind::RBrace,
        TokenKind::Comma,
        TokenKind::Dot,
        TokenKind::Semicolon,
        TokenKind::Equal,
        TokenKind::And,
        TokenKind::Class,
        TokenKind::Else,
        TokenKind::For,
        TokenKind::Fun,
        TokenKind::If,
        TokenKind::Or,
        TokenKind::Print,
        TokenKind::Return,
        TokenKind::Super,
        TokenKind::This,
        TokenKind::Var,
        TokenKind::While,
        TokenKind::Error,
        TokenKind::Eof,
    ] {
        let rule = get_rule(kind);
        assert_eq!((rule.prefix, rule.infix, rule.precedence), (None, None, Precedence::Lowest));
    }
}

#[test]
fn compiles_an_expression_in_postfix_order() {
    let (ok, chunk, errors) = compiled("print 1 + 2 * 3;");
    assert!(ok && errors.is_empty());
    assert_eq!(
        chunk.code,
        ops(&[
            (OpCode::Constant, Some(0)),
            (OpCode::Constant, Some(1)),
            (OpCode::Constant, Some(2)),
            (OpCode::Mul, None),
            (OpCode::Add, None),
            (OpCode::Print, None),
            (OpCode::Return, None),
        ])
    );
    assert_eq!(constants(&chunk), vec!["n:1", "n:2", "n:3"]);
    assert_eq!(chunk.lines, vec![1; chunk.code.len()]);
}

#[test]
fn operators_of_equal_precedence_group_to_the_left() {
    let (ok, chunk, _) = compiled("1 - 2 - 3;");
    assert!(ok);
    assert_eq!(
        chunk.code,
        ops(&[
            (OpCode::Constant, Some(0)),
            (OpCode::Constant, Some(1)),
            (OpCode::Sub, None),
            (OpCode::Constant, Some(2)),
            (OpCode::Sub, None),
            (OpCode::Pop, None),
            (OpCode::Return, None),
        ])
    );
}

#[test]
fn compound_comparisons_are_two_instructions() {
    for (source, first) in [("1 != 2;", OpCode::Equal), ("1 >= 2;", OpCode::Less), ("1 <= 2;", OpCode::Greater)] {
        let (ok, chunk, _) = compiled(source);
        assert!(ok);
        assert_eq!(
            chunk.code,
            ops(&[
                (OpCode::Constant, Some(0)),
                (OpCode::Constant, Some(1)),
                (first, None),
                (OpCode::Not, None),
                (OpCode::Pop, None),
                (OpCode::Return, None),
            ])
        );
    }
}

#[test]
fn literals_and_unary_operators() {
    let (ok, chunk, _) = compiled("!true; -nil; false;");
    assert!(ok);
    assert_eq!(
        chunk.code,
        ops(&[
            (OpCode::True, None),
            (OpCode::Not, None),
            (OpCode::Pop, None),
            (OpCode::Nil, None),
            (OpCode::Negate, None),
            (OpCode::Pop, None),
            (OpCode::False, None),
            (OpCode::Pop, None),
            (OpCode::Return, None),
        ])
    );
}

#[test]
fn string_constants_lose_their_quotes() {
    let (ok, chunk, _) = compiled("\"hi\";");
    assert!(ok);
    assert_eq!(constants(&chunk), vec!["s:hi"]);
}

#[test]
fn globals_are_named_by_constants() {
    let (ok, chunk, _) = compiled("var a = 1;\na = a;");
    assert!(ok);
    assert_eq!(
        chunk.code,
        ops(&[
            (OpCode::Constant, Some(1)),
            (OpCode::DefineGlobal, Some(0)),
            (OpCode::GetGlobal, Some(3)),
            (OpCode::SetGlobal, Some(2)),
            (OpCode::Pop, None),
            (OpCode::Return, None),
        ])
    );
    assert_eq!(constants(&chunk), vec!["s:a", "n:1", "s:a", "s:a"]);
    assert_eq!(chunk.lines, vec![1, 1, 1, 1, 2, 2, 2, 2, 2, 2]);
}

#[test]
fn locals_are_stack_slots() {
    let (ok, chunk, _) = compiled("{ var x = 10; { var y = x; x = y; } }");
    assert!(ok);
    assert_eq!(
        chunk.code,
        ops(&[
            (OpCode::Constant, Some(0)),
            (OpCode::GetLocal, Some(0)),
            (OpCode::GetLocal, Some(1)),
            (OpCode::SetLocal, Some(0)),
            (OpCode::Pop, None),
            (OpCode::Pop, None),
            (OpCode::Pop, None),
            (OpCode::Return, None),
        ])
    );
    assert_eq!(constants(&chunk), vec!["n:10"]);
}

#[test]
fn a_local_is_not_in_scope_in_its_own_initializer() {
    let (ok, chunk, _) = compiled("{ var a = a; }");
    assert!(ok);
    assert_eq!(
        chunk.code,
        ops(&[(OpCode::GetGlobal, Some(0)), (OpCode::Pop, None), (OpCode::Return, None)])
    );
}

#[test]
fn compile_adds_to_what_the_chunk_holds() {
    let mut chunk = Chunk::new();
    let mut errors = vec![b"earlier".to_vec()];
    chunk.write(OpCode::Nil.to_byte(), 9);
    chunk.add_constant(Constant::String(b"kept".to_vec()));
    assert!(compile(b"print \"x\";", &mut chunk, &mut errors));
    assert_eq!(
        chunk.code,
        ops(&[
            (OpCode::Nil, None),
            (OpCode::Constant, Some(1)),
            (OpCode::Print, None),
            (OpCode::Return, None),
        ])
    );
    assert_eq!(chunk.lines, vec![9, 1, 1, 1, 1]);
    assert_eq!(constants(&chunk), vec!["s:kept", "s:x"]);
    assert_eq!(errors, vec![b"earlier".to_vec()]);
}

#[test]
fn compile_reports_and_still_ends_in_return() {
    let (ok, chunk, errors) = compiled("print (1;");
    assert!(!ok);
    assert_eq!(errors, vec!["[line 1] Error at ';': Expect ')' after expression."]);
    assert_eq!(chunk.code.last(), Some(&OpCode::Return.to_byte()));
    assert_eq!(chunk.code.len(), chunk.lines.len());
}

#[test]
fn compiler_steps_can_be_driven_by_hand() {
    let scanner = Scanner::new(b"{ var a; var b; a; }");
    let mut compiler = Compiler::new(Parser::new(scanner, Chunk::new(), Vec::new()));
    compiler.advance();
    assert!(compiler.check(TokenKind::LBrace));
    assert!(compiler.matches(TokenKind::LBrace));
    compiler.begin_scope();
    compiler.declaration();
    compiler.declaration();
    assert_eq!(compiler.scope_depth, 1);
    assert_eq!(compiler.locals.len(), 2);
    assert_eq!(compiler.locals[1].depth, 1);
    let a = Token::new(TokenKind::Identifier, b"a".to_vec(), 1);
    let b = Token::new(TokenKind::Identifier, b"b".to_vec(), 1);
    let c = Token::new(TokenKind::Identifier, b"c".to_vec(), 1);
    assert_eq!(compiler.resolve_local(&a), 0);
    assert_eq!(compiler.resolve_local(&b), 1);
    assert_eq!(compiler.resolve_local(&c), -1);
    compiler.declaration();
    let before = compiler.parser.chunk.code.len();
    compiler.end_scope();
    assert_eq!(compiler.scope_depth, 0);
    assert!(compiler.locals.is_empty());
    assert_eq!(compiler.parser.chunk.code[before..], [OpCode::Pop.to_byte(); 2]);
    assert!(!compiler.parser.had_error);
}

#[test]
fn machine_runs_a_chunk_made_by_hand() {
    let mut chunk = Chunk::new();
    let text = chunk.add_constant(Constant::String(b"a".to_vec())) as u8;
    let number = chunk.add_constant(Constant::Number(b"2".to_vec())) as u8;
    for byte in ops(&[
        (OpCode::Constant, Some(text)),
        (OpCode::Constant, Some(text)),
        (OpCode::Add, None),
        (OpCode::Print, None),
        (OpCode::Constant, Some(number)),
        (OpCode::Constant, Some(number)),
        (OpCode::Div, None),
        (OpCode::Negate, None),
        (OpCode::Print, None),
        (OpCode::Return, None),
    ]) {
        chunk.write(byte, 1);
    }
    let mut vm = VM::new();
    vm.load(chunk);
    assert_eq!(vm.phase, Phase::Running);
    match vm.run() {
        Action::Print(value) => assert_eq!(value.text(), Some(b"aa".to_vec())),
        other => panic!("{:?}", other),
    }
    match vm.run() {
        Action::Literal(text) => assert_eq!(text, b"2".to_vec()),
        other => panic!("{:?}", other),
    }
    assert_eq!(vm.phase, Phase::Awaiting);
    match vm.resume(2.0f64.to_bits()) {
        Action::Literal(text) => assert_eq!(text, b"2".to_vec()),
        other => panic!("{:?}", other),
    }
    match vm.resume(4.0f64.to_bits()) {
        Action::Arith(op, a, b) => {
            assert_eq!(op, ArithOp::Div);
            assert_eq!((a, b), (2.0f64.to_bits(), 4.0f64.to_bits()));
        }
        other => panic!("{:?}", other),
    }
    match vm.resume(0.5f64.to_bits()) {
        Action::Print(value) => assert_eq!(value.as_number(), (-0.5f64).to_bits()),
        other => panic!("{:?}", other),
    }
    match vm.run() {
        Action::Done(result) => assert_eq!(result, InterpretResult::Success),
        other => panic!("{:?}", other),
    }
    assert_eq!(vm.phase, Phase::Idle);
    assert!(vm.stack.is_empty());
}

#[test]
fn machine_steps_one_instruction_at_a_time() {
    let mut chunk = Chunk::new();
    for byte in ops(&[
        (OpCode::Nil, None),
        (OpCode::Not, None),
        (OpCode::Not, None),
        (OpCode::Pop, None),
        (OpCode::Return, None),
    ]) {
        chunk.write(byte, 1);
    }
    let mut vm = VM::new();
    vm.load(chunk);
    assert!(vm.step().is_none());
    assert!(vm.stack[0].is_nil());
    assert!(vm.step().is_none());
    assert!(vm.stack[0].equals(&lox::value::Value::Bool(true)));
    assert!(vm.step().is_none());
    assert!(vm.stack[0].equals(&lox::value::Value::Bool(false)));
    assert!(vm.step().is_none());
    assert!(vm.stack.is_empty());
    assert_eq!(vm.ip, 4);
    assert!(matches!(vm.step(), Some(Action::Done(InterpretResult::Success))));
}

#[test]
fn a_runtime_error_leaves_the_stack_as_it_is() {
    let mut vm = VM::new();
    let action = vm.interpret(b"{ var a = true; var b = nil; a < b; }");
    assert!(matches!(action, Action::Done(InterpretResult::RuntimeError)));
    assert_eq!(vm.stack.len(), 4);
    assert_eq!(vm.phase, Phase::Idle);
}

#[test]
fn a_new_machine_holds_nothing() {
    let vm = VM::new();
    assert!(vm.chunk.code.is_empty() && vm.chunk.constants.is_empty() && vm.chunk.lines.is_empty());
    assert_eq!(vm.ip, 0);
    assert!(vm.stack.is_empty());
    assert!(vm.globals.entries.is_empty());
    assert_eq!(vm.phase, Phase::Idle);
    assert!(vm.errors.is_empty());
    let chunk = Chunk::new();
    assert!(chunk.code.is_empty() && chunk.constants.is_empty() && chunk.lines.is_empty());
}
