use lox::bytecode::{disassemble_instruction, Chunk, OpCode, Value};

fn render(bits: u64) -> String {
    format!("{}", f64::from_bits(bits))
}

#[test]
fn chunk_construction() {
    let mut chunk = Chunk::new();
    assert_eq!(chunk.code_at(0), None);
    assert_eq!(chunk.constant_at(0), None);
    assert!(!chunk.has_return());

    let first = chunk.push_constant(Value::Number(1.5f64.to_bits()));
    let second = chunk.push_constant(Value::Number(2.5f64.to_bits()));
    assert_eq!(first, 0);
    assert_eq!(second, 1);

    chunk.write(OpCode::Constant(first), 10);
    chunk.write(OpCode::Return, 11);
    assert_eq!(chunk.code_at(0), Some(OpCode::Constant(0)));
    assert_eq!(chunk.code_at(1), Some(OpCode::Return));
    assert_eq!(chunk.code_at(2), None);
    assert_eq!(chunk.constant_at(0), Some(Value::Number(1.5f64.to_bits())));
    assert_eq!(chunk.constant_at(1), Some(Value::Number(2.5f64.to_bits())));
    assert_eq!(chunk.constant_at(2), None);
    assert!(chunk.has_return());
}

#[test]
fn disassembly_collapses_repeated_line_numbers() {
    let mut chunk = Chunk::new();
    let index = chunk.push_constant(Value::Number(1.5f64.to_bits()));
    chunk.write(OpCode::Constant(index), 123);
    chunk.write(OpCode::Add, 123);
    chunk.write(OpCode::Return, 124);

    let line0 = disassemble_instruction(&chunk, 0, &render);
    let line1 = disassemble_instruction(&chunk, 1, &render);
    let line2 = disassemble_instruction(&chunk, 2, &render);

    let expected0 = format!("{:04} {:4} {:<16} {:4} '{}'", 0, 123, "OP_CONSTANT", 0, 1.5);
    assert_eq!(line0, expected0);
    assert_eq!(line1, "0001    | OP_ADD");
    assert_eq!(line2, format!("{:04} {:4} {}", 2, 124, "OP_RETURN"));
}

#[test]
fn disassembly_of_every_instruction() {
    let mut chunk = Chunk::new();
    let index = chunk.push_constant(Value::Number(3.0f64.to_bits()));
    chunk.write(OpCode::Constant(index), 1);
    chunk.write(OpCode::Add, 2);
    chunk.write(OpCode::Subtract, 3);
    chunk.write(OpCode::Multiply, 4);
    chunk.write(OpCode::Divide, 5);
    chunk.write(OpCode::Negate, 6);
    chunk.write(OpCode::Return, 7);

    assert!(disassemble_instruction(&chunk, 1, &render).ends_with("OP_ADD"));
    assert!(disassemble_instruction(&chunk, 2, &render).ends_with("OP_SUBTRACT"));
    assert!(disassemble_instruction(&chunk, 3, &render).ends_with("OP_MULTIPLY"));
    assert!(disassemble_instruction(&chunk, 4, &render).ends_with("OP_DIVIDE"));
    assert!(disassemble_instruction(&chunk, 5, &render).ends_with("OP_NEGATE"));
    assert!(disassemble_instruction(&chunk, 6, &render).ends_with("OP_RETURN"));
}

#[test]
fn whole_chunk_disassembly() {
    let mut chunk = Chunk::new();
    let index = chunk.push_constant(Value::Number(1.5f64.to_bits()));
    chunk.write(OpCode::Constant(index), 123);
    chunk.write(OpCode::Add, 123);

    let text = chunk.disassemble("test chunk", &render);
    let line0 = disassemble_instruction(&chunk, 0, &render);
    let line1 = disassemble_instruction(&chunk, 1, &render);
    let expected = format!("== test chunk == \n{}\n{}\n", line0, line1);
    assert_eq!(text, expected);
}
