use lox::bytecode::{Chunk, OpCode, Value};
use lox::vm::{BinaryOp, InterpretError, RuntimeError, Vm};

fn number(x: f64) -> Value {
    Value::Number(x.to_bits())
}

fn binary(op: BinaryOp, a: u64, b: u64) -> u64 {
    let x = f64::from_bits(a);
    let y = f64::from_bits(b);
    let r = match op {
        BinaryOp::Add => x + y,
        BinaryOp::Subtract => x - y,
        BinaryOp::Multiply => x * y,
        BinaryOp::Divide => x / y,
    };
    r.to_bits()
}

fn negate(a: u64) -> u64 {
    (-f64::from_bits(a)).to_bits()
}

fn result_number(r: Result<Value, InterpretError>) -> f64 {
    match r {
        Ok(Value::Number(bits)) => f64::from_bits(bits),
        Err(e) => panic!("interpretation failed: {}", e.message()),
    }
}

#[test]
fn chunk_round_trip() {
    let mut chunk = Chunk::new();
    let index = chunk.push_constant(number(1.2));
    chunk.write(OpCode::Constant(index), 1);
    let index = chunk.push_constant(number(3.4));
    chunk.write(OpCode::Constant(index), 1);
    chunk.write(OpCode::Add, 1);
    let index = chunk.push_constant(number(5.6));
    chunk.write(OpCode::Constant(index), 1);
    chunk.write(OpCode::Divide, 1);
    chunk.write(OpCode::Negate, 1);
    chunk.write(OpCode::Return, 2);
    assert!(chunk.has_return());

    let mut vm = Vm::init(chunk);
    let result = vm.interpret(binary, negate);
    let expected: f64 = -((1.2 + 3.4) / 5.6);
    assert_eq!(result_number(result).to_bits(), expected.to_bits());
}

#[test]
fn stack_underflow() {
    let mut chunk = Chunk::new();
    chunk.write(OpCode::Add, 1);
    let mut vm = Vm::init(chunk);
    let result = vm.interpret(binary, negate);
    assert!(matches!(
        result,
        Err(InterpretError::RuntimeError(RuntimeError::StackUnderflow))
    ));
}

#[test]
fn underflow_with_one_operand() {
    let mut chunk = Chunk::new();
    let index = chunk.push_constant(number(2.0));
    chunk.write(OpCode::Constant(index), 1);
    chunk.write(OpCode::Multiply, 1);
    chunk.write(OpCode::Return, 1);
    let mut vm = Vm::init(chunk);
    let result = vm.interpret(binary, negate);
    assert!(matches!(
        result,
        Err(InterpretError::RuntimeError(RuntimeError::StackUnderflow))
    ));
}

#[test]
fn invalid_constant_index() {
    let mut chunk = Chunk::new();
    chunk.write(OpCode::Constant(99), 1);
    let mut vm = Vm::init(chunk);
    let result = vm.interpret(binary, negate);
    assert!(matches!(
        result,
        Err(InterpretError::RuntimeError(RuntimeError::InvalidChunkError))
    ));
}

#[test]
fn subtraction_pops_right_operand_first() {
    let mut chunk = Chunk::new();
    let index = chunk.push_constant(number(6.0));
    chunk.write(OpCode::Constant(index), 1);
    let index = chunk.push_constant(number(2.0));
    chunk.write(OpCode::Constant(index), 1);
    chunk.write(OpCode::Subtract, 1);
    chunk.write(OpCode::Return, 1);
    let mut vm = Vm::init(chunk);
    assert_eq!(result_number(vm.interpret(binary, negate)), 4.0);
}

#[test]
fn division_by_zero_follows_ieee() {
    let mut chunk = Chunk::new();
    let index = chunk.push_constant(number(1.0));
    chunk.write(OpCode::Constant(index), 1);
    let index = chunk.push_constant(number(0.0));
    chunk.write(OpCode::Constant(index), 1);
    chunk.write(OpCode::Divide, 1);
    chunk.write(OpCode::Return, 1);
    let mut vm = Vm::init(chunk);
    let result = result_number(vm.interpret(binary, negate));
    assert!(result.is_infinite() && result > 0.0);
}

#[test]
fn negate_single_constant() {
    let mut chunk = Chunk::new();
    let index = chunk.push_constant(number(13.37));
    chunk.write(OpCode::Constant(index), 7);
    chunk.write(OpCode::Negate, 7);
    chunk.write(OpCode::Return, 7);
    let mut vm = Vm::init(chunk);
    assert_eq!(result_number(vm.interpret(binary, negate)), -13.37);
}

#[test]
fn runtime_error_wraps_into_interpret_error() {
    let wrapped = InterpretError::from(RuntimeError::TypeError);
    assert_eq!(wrapped, InterpretError::RuntimeError(RuntimeError::TypeError));
}

#[test]
fn error_messages() {
    assert_eq!(InterpretError::CompileError.message(), "compile error");
    assert_eq!(
        InterpretError::RuntimeError(RuntimeError::StackUnderflow).message(),
        "runtime error: stack underflow"
    );
    assert_eq!(RuntimeError::InvalidChunkError.message(), "malformed chunk");
    assert_eq!(RuntimeError::StackUnderflow.message(), "stack underflow");
    assert_eq!(RuntimeError::TypeError.message(), "type error");
}
