use lox::chunk::{Chunk, Constant, OpCode};
use lox::compiler::compile;
use lox::debug::{disassemble_chunk, disassemble_instruction};
use lox::expressions::binary_ops;
use lox::token::TokenKind;

fn compiled(source: &str) -> Chunk {
    let mut chunk = Chunk::new();
    let mut errors = Vec::new();
    assert!(compile(source.as_bytes(), &mut chunk, &mut errors));
    chunk
}

#[test]
fn lists_a_compiled_chunk() {
    let chunk = compiled("print 1 + 2;\nvar a = \"s\";\n{ var b = a; b = nil; }");
    assert!(chunk.is_runnable());
    let mut out = Vec::new();
    disassemble_chunk(&chunk, b"code", &mut out);
    let mut expected = String::from("== code ==\n");
    expected += &format!("{:04} {:4} {:<16} {:4} '{}'\n", 0, 1, "Constant", 0, "1");
    expected += &format!("{:04}    | {:<16} {:4} '{}'\n", 2, "Constant", 1, "2");
    expected += &format!("{:04}    | {}\n", 4, "Add");
    expected += &format!("{:04}    | {}\n", 5, "Print");
    expected += &format!("{:04} {:4} {:<16} {:4} '{}'\n", 6, 2, "Constant", 3, "s");
    expected += &format!("{:04}    | {:<16} {:4} '{}'\n", 8, "DefineGlobal", 2, "a");
    expected += &format!("{:04} {:4} {:<16} {:4} '{}'\n", 10, 3, "GetGlobal", 4, "a");
    expected += &format!("{:04}    | {}\n", 12, "Nil");
    expected += &format!("{:04}    | {:<16} {:4}\n", 13, "SetLocal", 0);
    expected += &format!("{:04}    | {}\n", 15, "Pop");
    expected += &format!("{:04}    | {}\n", 16, "Pop");
    expected += &format!("{:04}    | {}\n", 17, "Return");
    assert_eq!(String::from_utf8(out).unwrap(), expected);
}

#[test]
fn lists_one_instruction_and_gives_the_next_offset() {
    let mut chunk = Chunk::new();
    chunk.add_constant(Constant::String(b"name".to_vec()));
    chunk.write(OpCode::GetLocal.to_byte(), 12345);
    chunk.write(7, 12345);
    chunk.write(OpCode::GetGlobal.to_byte(), 12346);
    chunk.write(0, 12346);
    chunk.write(200, 12346);
    chunk.write(OpCode::Return.to_byte(), 12347);
    let mut out = Vec::new();
    assert_eq!(disassemble_instruction(&chunk, 0, &mut out), 2);
    assert_eq!(out, format!("0000 12345 {:<16} {:4}\n", "GetLocal", 7).into_bytes());
    out.clear();
    assert_eq!(disassemble_instruction(&chunk, 2, &mut out), 4);
    assert_eq!(out, format!("0002 12346 {:<16} {:4} 'name'\n", "GetGlobal", 0).into_bytes());
    out.clear();
    assert_eq!(disassemble_instruction(&chunk, 4, &mut out), 5);
    assert_eq!(out, b"0004    | Unknown opcode 200\n".to_vec());
    out.clear();
    assert_eq!(disassemble_instruction(&chunk, 5, &mut out), 6);
    assert_eq!(out, b"0005 12347 Return\n".to_vec());
    assert!(!chunk.is_runnable());
}

#[test]
fn lists_every_instruction_by_its_name() {
    let names = [
        "Constant", "Nil", "True", "False", "Pop", "GetLocal", "SetLocal", "GetGlobal",
        "DefineGlobal", "SetGlobal", "Equal", "Greater", "Less", "Add", "Sub", "Mul", "Div", "Not",
        "Negate", "Print", "Return",
    ];
    for (byte, name) in names.iter().enumerate() {
        let op = OpCode::from_byte(byte as u8).unwrap();
        let mut chunk = Chunk::new();
        chunk.add_constant(Constant::Number(b"1.50".to_vec()));
        chunk.write(byte as u8, 1);
        chunk.write(0, 2);
        let mut out = Vec::new();
        let next = disassemble_instruction(&chunk, 0, &mut out);
        assert_eq!(next, 1 + op.operands());
        let text = String::from_utf8(out).unwrap();
        let expected = match op.operands() {
            0 => format!("0000    1 {}\n", name),
            _ if name.contains("Local") => format!("0000    1 {:<16} {:4}\n", name, 0),
            _ => format!("0000    1 {:<16} {:4} '1.50'\n", name, 0),
        };
        assert_eq!(text, expected);
    }
}

#[test]
fn runnable_chunks_are_told_from_others() {
    assert!(compiled("").is_runnable());
    assert!(compiled("{ var a = 1; { var b = a + a; print b; } }").is_runnable());
    assert!(!Chunk::new().is_runnable());
    let build = |bytes: &[u8], constants: &[Constant]| {
        let mut chunk = Chunk::new();
        for constant in constants {
            chunk.add_constant(constant.clone());
        }
        for byte in bytes {
            chunk.write(*byte, 1);
        }
        chunk
    };
    let ret = OpCode::Return.to_byte();
    let name = [Constant::String(b"a".to_vec())];
    let number = [Constant::Number(b"1".to_vec())];
    // Ends in `Return`, nothing else.
    assert!(build(&[ret], &[]).is_runnable());
    // Does not end in `Return`.
    assert!(!build(&[OpCode::Nil.to_byte()], &[]).is_runnable());
    // `Pop` finds nothing on the stack.
    assert!(!build(&[OpCode::Pop.to_byte(), ret], &[]).is_runnable());
    assert!(build(&[OpCode::Nil.to_byte(), OpCode::Pop.to_byte(), ret], &[]).is_runnable());
    // A binary instruction finds one value.
    assert!(!build(&[OpCode::Nil.to_byte(), OpCode::Add.to_byte(), ret], &[]).is_runnable());
    // A constant that is not there.
    assert!(!build(&[OpCode::Constant.to_byte(), 1, ret], &number).is_runnable());
    assert!(build(&[OpCode::Constant.to_byte(), 0, ret], &number).is_runnable());
    // A global named by a number.
    assert!(!build(&[OpCode::GetGlobal.to_byte(), 0, ret], &number).is_runnable());
    assert!(build(&[OpCode::GetGlobal.to_byte(), 0, ret], &name).is_runnable());
    // A stack slot that holds nothing.
    assert!(!build(&[OpCode::Nil.to_byte(), OpCode::GetLocal.to_byte(), 1, ret], &[]).is_runnable());
    assert!(build(&[OpCode::Nil.to_byte(), OpCode::GetLocal.to_byte(), 0, ret], &[]).is_runnable());
    // An operand that is cut off, a byte that is no instruction, a `Return` in the middle.
    assert!(!build(&[OpCode::Constant.to_byte(), ret], &number).is_runnable());
    assert!(!build(&[99, ret], &[]).is_runnable());
    assert!(!build(&[ret, ret], &[]).is_runnable());
    // A line is missing.
    let mut chunk = build(&[ret], &[]);
    chunk.lines.clear();
    assert!(!chunk.is_runnable());
}

#[test]
fn stack_effects_of_the_instructions() {
    let two_to_one = [
        OpCode::Equal, OpCode::Greater, OpCode::Less, OpCode::Add, OpCode::Sub, OpCode::Mul,
        OpCode::Div,
    ];
    for op in two_to_one {
        assert_eq!((op.pops(), op.pushes()), (2, 1));
    }
    for op in [OpCode::Constant, OpCode::Nil, OpCode::True, OpCode::False, OpCode::GetLocal, OpCode::GetGlobal] {
        assert_eq!((op.pops(), op.pushes()), (0, 1));
    }
    for op in [OpCode::Pop, OpCode::DefineGlobal, OpCode::Print] {
        assert_eq!((op.pops(), op.pushes()), (1, 0));
    }
    for op in [OpCode::SetLocal, OpCode::SetGlobal, OpCode::Not, OpCode::Negate] {
        assert_eq!((op.pops(), op.pushes()), (1, 1));
    }
    assert_eq!((OpCode::Return.pops(), OpCode::Return.pushes()), (0, 0));
}

#[test]
fn binary_operators_and_their_instructions() {
    assert_eq!(binary_ops(TokenKind::BangEqual), (OpCode::Equal, Some(OpCode::Not)));
    assert_eq!(binary_ops(TokenKind::EqualEqual), (OpCode::Equal, None));
    assert_eq!(binary_ops(TokenKind::Greater), (OpCode::Greater, None));
    assert_eq!(binary_ops(TokenKind::GreaterEqual), (OpCode::Less, Some(OpCode::Not)));
    assert_eq!(binary_ops(TokenKind::Less), (OpCode::Less, None));
    assert_eq!(binary_ops(TokenKind::LessEqual), (OpCode::Greater, Some(OpCode::Not)));
    assert_eq!(binary_ops(TokenKind::Plus), (OpCode::Add, None));
    assert_eq!(binary_ops(TokenKind::Minus), (OpCode::Sub, None));
    assert_eq!(binary_ops(TokenKind::Star), (OpCode::Mul, None));
    assert_eq!(binary_ops(TokenKind::Slash), (OpCode::Div, None));
}
