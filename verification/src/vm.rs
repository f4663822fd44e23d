//! The virtual machine: owns a chunk, a program counter and an evaluation
//! stack, and executes instructions one at a time until a `Return` is reached
//! or an error occurs.

use vstd::prelude::*;
use vstd::string::*;

verus! {

use crate::bytecode::{spec_value_num, Chunk, OpCode, Value};

/// Why an `interpret` run failed: either a (future) compile error, or a typed
/// runtime error.
#[derive(PartialEq, Eq, Structural, Clone, Copy, Debug)]
pub enum InterpretError {
    CompileError,
    RuntimeError(RuntimeError),
}

/// The fatal runtime errors. All immediately halt execution.
#[derive(PartialEq, Eq, Structural, Clone, Copy, Debug)]
pub enum RuntimeError {
    InvalidChunkError,
    StackUnderflow,
    TypeError,
}

/// The diagnostic text of each runtime error.
pub open spec fn spec_runtime_error_message(e: RuntimeError) -> Seq<char> {
    match e {
        RuntimeError::InvalidChunkError => "malformed chunk"@,
        RuntimeError::StackUnderflow => "stack underflow"@,
        RuntimeError::TypeError => "type error"@,
    }
}

/// The diagnostic text of an interpretation failure.
pub open spec fn spec_interpret_error_message(e: InterpretError) -> Seq<char> {
    match e {
        InterpretError::CompileError => "compile error"@,
        InterpretError::RuntimeError(r) => "runtime error: "@ + spec_runtime_error_message(r),
    }
}

impl RuntimeError {
    pub fn message(&self) -> (r: String)
        ensures
            r@ == spec_runtime_error_message(*self),
    {
        match *self {
            RuntimeError::InvalidChunkError => String::from_str("malformed chunk"),
            RuntimeError::StackUnderflow => String::from_str("stack underflow"),
            RuntimeError::TypeError => String::from_str("type error"),
        }
    }
}

impl InterpretError {
    pub fn message(&self) -> (r: String)
        ensures
            r@ == spec_interpret_error_message(*self),
    {
        match *self {
            InterpretError::CompileError => String::from_str("compile error"),
            InterpretError::RuntimeError(e) => String::from_str("runtime error: ").concat(
                e.message().as_str(),
            ),
        }
    }
}

impl From<RuntimeError> for InterpretError {
    fn from(error: RuntimeError) -> (r: InterpretError) {
        InterpretError::RuntimeError(error)
    }
}

impl vstd::std_specs::convert::FromSpecImpl<RuntimeError> for InterpretError {
    open spec fn obeys_from_spec() -> bool {
        true
    }

    open spec fn from_spec(v: RuntimeError) -> InterpretError {
        InterpretError::RuntimeError(v)
    }
}

/// The binary arithmetic operators of the instruction set, as handed to the
/// caller-supplied arithmetic.
#[derive(PartialEq, Eq, Structural, Clone, Copy, Debug)]
pub enum BinaryOp {
    Add,
    Subtract,
    Multiply,
    Divide,
}

/// How a dispatch run starting from a given machine state ends. The outcome
/// depends only on the instruction sequence, the size of the constant pool,
/// the program counter and the stack depth: arithmetic never fails and every
/// instruction has a fixed stack effect.
#[derive(PartialEq, Eq, Structural, Clone, Copy, Debug)]
pub enum ExecOutcome {
    /// A `Return` is reached with a value to return.
    Completes,
    /// Some pop finds fewer values than the instruction needs.
    Underflows,
    /// A `Constant` instruction refers past the end of the constant pool.
    BadConstant,
    /// The program counter runs past the end of the instruction sequence.
    RunsOffEnd,
}

/// The outcome of dispatching `code` from instruction `pc` with `depth`
/// values on the evaluation stack.
pub open spec fn spec_outcome(code: Seq<OpCode>, n_consts: nat, pc: int, depth: nat) -> ExecOutcome
    decreases code.len() - pc,
{
    if pc < 0 || pc >= code.len() {
        ExecOutcome::RunsOffEnd
    } else {
        match code[pc] {
            OpCode::Constant(i) => if (i as nat) < n_consts {
                spec_outcome(code, n_consts, pc + 1, (depth + 1) as nat)
            } else {
                ExecOutcome::BadConstant
            },
            OpCode::Negate => if depth >= 1 {
                spec_outcome(code, n_consts, pc + 1, depth)
            } else {
                ExecOutcome::Underflows
            },
            OpCode::Return => if depth >= 1 {
                ExecOutcome::Completes
            } else {
                ExecOutcome::Underflows
            },
            OpCode::Add | OpCode::Subtract | OpCode::Multiply | OpCode::Divide => if depth
                >= 2 {
                spec_outcome(code, n_consts, pc + 1, (depth - 1) as nat)
            } else {
                ExecOutcome::Underflows
            },
        }
    }
}

/// `result` is a value that dispatching `code` from `pc` over `stack` can
/// return, when every binary step produces a value the `binary` arithmetic
/// allows and every negation one the `negate` arithmetic allows. Binary
/// instructions pop the right operand first, then the left.
pub open spec fn spec_reaches<F: Fn(BinaryOp, u64, u64) -> u64, G: Fn(u64) -> u64>(
    binary: F,
    negate: G,
    code: Seq<OpCode>,
    consts: Seq<Value>,
    pc: int,
    stack: Seq<Value>,
    result: Value,
) -> bool
    decreases code.len() - pc, 1int,
{
    0 <= pc < code.len() && match code[pc] {
        OpCode::Constant(i) => (i as int) < consts.len() && spec_reaches(
            binary,
            negate,
            code,
            consts,
            pc + 1,
            stack.push(consts[i as int]),
            result,
        ),
        OpCode::Add => spec_reaches_binary(
            binary,
            negate,
            code,
            consts,
            pc,
            stack,
            result,
            BinaryOp::Add,
        ),
        OpCode::Subtract => spec_reaches_binary(
            binary,
            negate,
            code,
            consts,
            pc,
            stack,
            result,
            BinaryOp::Subtract,
        ),
        OpCode::Multiply => spec_reaches_binary(
            binary,
            negate,
            code,
            consts,
            pc,
            stack,
            result,
            BinaryOp::Multiply,
        ),
        OpCode::Divide => spec_reaches_binary(
            binary,
            negate,
            code,
            consts,
            pc,
            stack,
            result,
            BinaryOp::Divide,
        ),
        OpCode::Negate => stack.len() >= 1 && (exists|x: u64|
            #[trigger] call_ensures(negate, (spec_value_num(stack.last()),), x) && spec_reaches(
                binary,
                negate,
                code,
                consts,
                pc + 1,
                stack.drop_last().push(Value::Number(x)),
                result,
            )),
        OpCode::Return => stack.len() >= 1 && result == stack.last(),
    }
}

/// One binary step of `spec_reaches`: both operands are popped (right first),
/// and some value the arithmetic allows for them is pushed.
pub open spec fn spec_reaches_binary<F: Fn(BinaryOp, u64, u64) -> u64, G: Fn(u64) -> u64>(
    binary: F,
    negate: G,
    code: Seq<OpCode>,
    consts: Seq<Value>,
    pc: int,
    stack: Seq<Value>,
    result: Value,
    op: BinaryOp,
) -> bool
    decreases code.len() - pc, 0int,
{
    0 <= pc < code.len() && stack.len() >= 2 && (exists|x: u64|
        #[trigger] call_ensures(
            binary,
            (op, spec_value_num(stack[stack.len() - 2]), spec_value_num(stack.last())),
            x,
        ) && spec_reaches(
            binary,
            negate,
            code,
            consts,
            pc + 1,
            stack.drop_last().drop_last().push(Value::Number(x)),
            result,
        ))
}

/// The virtual machine: a fully built chunk, a program counter, and the
/// evaluation stack. Created for one `interpret` run and discarded after it.
#[derive(Clone, Debug)]
pub struct Vm {
    chunk: Chunk,
    program_counter: usize,
    stack: Vec<Value>,
}

impl Vm {
    /// The chunk under execution.
    pub closed spec fn spec_chunk(&self) -> Chunk {
        self.chunk
    }

    /// The index of the next instruction to execute.
    pub closed spec fn spec_pc(&self) -> int {
        self.program_counter as int
    }

    /// The evaluation stack, bottom first.
    pub closed spec fn spec_stack(&self) -> Seq<Value> {
        self.stack@
    }

    /// Take ownership of a fully built chunk, ready to run from its first
    /// instruction with an empty stack.
    pub fn init(chunk: Chunk) -> (r: Self)
        ensures
            r.spec_chunk() == chunk,
            r.spec_pc() == 0,
            r.spec_stack() == Seq::<Value>::empty(),
    {
        let v: Vec<Value> = Vec::new();
        proof {
            assert(v@ =~= Seq::<Value>::empty());
        }
        Vm { chunk, program_counter: 0, stack: v }
    }

    fn pop_stack(&mut self) -> (r: Result<Value, RuntimeError>)
        ensures
            final(self).spec_chunk() == old(self).spec_chunk(),
            final(self).spec_pc() == old(self).spec_pc(),
            if old(self).spec_stack().len() > 0 {
                r == Ok::<Value, RuntimeError>(old(self).spec_stack().last()) && final(self).spec_stack() == old(self).spec_stack().drop_last()
            } else {
                r == Err::<Value, RuntimeError>(RuntimeError::StackUnderflow) && final(self).spec_stack() == old(self).spec_stack()
            },
    {
        match self.stack.pop() {
            Some(v) => Ok(v),
            None => Err(RuntimeError::StackUnderflow),
        }
    }

    fn push_stack(&mut self, value: Value)
        ensures
            final(self).spec_chunk() == old(self).spec_chunk(),
            final(self).spec_pc() == old(self).spec_pc(),
            final(self).spec_stack() == old(self).spec_stack().push(value),
    {
        self.stack.push(value);
    }

    /// Run the dispatch loop to completion or to the first error. On success
    /// the value the `Return` instruction popped is handed back, for the
    /// caller to emit. The caller supplies the arithmetic on number
    /// encodings; which error (if any) the run ends with never depends on it.
    pub fn interpret<F: Fn(BinaryOp, u64, u64) -> u64, G: Fn(u64) -> u64>(
        &mut self,
        binary: F,
        negate: G,
    ) -> (r: Result<Value, InterpretError>)
        requires
            spec_outcome(
                old(self).spec_chunk().code@,
                old(self).spec_chunk().constants@.len() as nat,
                old(self).spec_pc(),
                old(self).spec_stack().len() as nat,
            ) != ExecOutcome::RunsOffEnd,
            forall|op: BinaryOp, a: u64, b: u64| call_requires(binary, (op, a, b)),
            forall|a: u64| call_requires(negate, (a,)),
        ensures
            final(self).spec_chunk() == old(self).spec_chunk(),
            ({
                let outcome = spec_outcome(
                    old(self).spec_chunk().code@,
                    old(self).spec_chunk().constants@.len() as nat,
                    old(self).spec_pc(),
                    old(self).spec_stack().len() as nat,
                );
                &&& (r is Ok <==> outcome == ExecOutcome::Completes)
                &&& (r == Err::<Value, InterpretError>(
                    InterpretError::RuntimeError(RuntimeError::StackUnderflow),
                ) <==> outcome == ExecOutcome::Underflows)
                &&& (r == Err::<Value, InterpretError>(
                    InterpretError::RuntimeError(RuntimeError::InvalidChunkError),
                ) <==> outcome == ExecOutcome::BadConstant)
            }),
            r matches Ok(v) ==> spec_reaches(
                binary,
                negate,
                old(self).spec_chunk().code@,
                old(self).spec_chunk().constants@,
                old(self).spec_pc(),
                old(self).spec_stack(),
                v,
            ),
    {
        let ghost code = self.chunk.code@;
        let ghost consts = self.chunk.constants@;
        let ghost pc0 = self.spec_pc();
        let ghost stack0 = self.spec_stack();
        let ghost outcome0 = spec_outcome(code, consts.len() as nat, pc0, stack0.len() as nat);
        loop
            invariant
                self.spec_chunk() == old(self).spec_chunk(),
                code == self.chunk.code@,
                consts == self.chunk.constants@,
                0 <= self.spec_pc() <= code.len(),
                spec_outcome(code, consts.len() as nat, self.spec_pc(), self.spec_stack().len() as nat)
                    == outcome0,
                outcome0 != ExecOutcome::RunsOffEnd,
                outcome0 == spec_outcome(code, consts.len() as nat, pc0, stack0.len() as nat),
                pc0 == old(self).spec_pc(),
                stack0 == old(self).spec_stack(),
                forall|op: BinaryOp, a: u64, b: u64| call_requires(binary, (op, a, b)),
                forall|a: u64| call_requires(negate, (a,)),
                forall|res: Value|
                    spec_reaches(binary, negate, code, consts, self.spec_pc(), self.spec_stack(), res)
                        ==> spec_reaches(binary, negate, code, consts, pc0, stack0, res),
            decreases code.len() - self.spec_pc(),
        {
            let ghost pc_prev = self.spec_pc();
            let ghost stack_prev = self.spec_stack();
            proof {
                assert(self.spec_pc() < code.len());
            }
            // the executable length bounds the code sequence by the machine
            // word, so advancing the counter below cannot overflow
            let _code_len: usize = self.chunk.code.len();
            let instruction = self.chunk.code[self.program_counter];
            self.program_counter = self.program_counter + 1;
            match instruction {
                OpCode::Constant(idx) => {
                    match self.chunk.constant_at(idx) {
                        Some(constant) => {
                            self.push_stack(constant);
                            proof {
                                assert forall|res: Value|
                                    spec_reaches(
                                        binary,
                                        negate,
                                        code,
                                        consts,
                                        self.spec_pc(),
                                        self.spec_stack(),
                                        res,
                                    ) implies spec_reaches(
                                    binary,
                                    negate,
                                    code,
                                    consts,
                                    pc0,
                                    stack0,
                                    res,
                                ) by {
                                    assert(self.spec_stack() == stack_prev.push(
                                        consts[idx as int],
                                    ));
                                }
                            }
                        },
                        None => {
                            return Err(InterpretError::RuntimeError(
                                RuntimeError::InvalidChunkError,
                            ));
                        },
                    }
                },
                OpCode::Add => {
                    match self.binary_step(BinaryOp::Add, &binary) {
                        Ok(()) => {
                            proof {
                                self.lemma_binary_step_reaches(
                                    binary,
                                    negate,
                                    code,
                                    consts,
                                    pc0,
                                    stack0,
                                    pc_prev,
                                    stack_prev,
                                    BinaryOp::Add,
                                );
                            }
                        },
                        Err(e) => {
                            return Err(InterpretError::RuntimeError(e));
                        },
                    }
                },
                OpCode::Subtract => {
                    match self.binary_step(BinaryOp::Subtract, &binary) {
                        Ok(()) => {
                            proof {
                                self.lemma_binary_step_reaches(
                                    binary,
                                    negate,
                                    code,
                                    consts,
                                    pc0,
                                    stack0,
                                    pc_prev,
                                    stack_prev,
                                    BinaryOp::Subtract,
                                );
                            }
                        },
                        Err(e) => {
                            return Err(InterpretError::RuntimeError(e));
                        },
                    }
                },
                OpCode::Multiply => {
                    match self.binary_step(BinaryOp::Multiply, &binary) {
                        Ok(()) => {
                            proof {
                                self.lemma_binary_step_reaches(
                                    binary,
                                    negate,
                                    code,
                                    consts,
                                    pc0,
                                    stack0,
                                    pc_prev,
                                    stack_prev,
                                    BinaryOp::Multiply,
                                );
                            }
                        },
                        Err(e) => {
                            return Err(InterpretError::RuntimeError(e));
                        },
                    }
                },
                OpCode::Divide => {
                    match self.binary_step(BinaryOp::Divide, &binary) {
                        Ok(()) => {
                            proof {
                                self.lemma_binary_step_reaches(
                                    binary,
                                    negate,
                                    code,
                                    consts,
                                    pc0,
                                    stack0,
                                    pc_prev,
                                    stack_prev,
                                    BinaryOp::Divide,
                                );
                            }
                        },
                        Err(e) => {
                            return Err(InterpretError::RuntimeError(e));
                        },
                    }
                },
                OpCode::Negate => {
                    let value = match self.pop_stack() {
                        Ok(v) => v,
                        Err(e) => {
                            return Err(InterpretError::RuntimeError(e));
                        },
                    };
                    match value {
                        Value::Number(val) => {
                            let x = negate(val);
                            self.push_stack(Value::Number(x));
                            proof {
                                assert forall|res: Value|
                                    spec_reaches(
                                        binary,
                                        negate,
                                        code,
                                        consts,
                                        self.spec_pc(),
                                        self.spec_stack(),
                                        res,
                                    ) implies spec_reaches(
                                    binary,
                                    negate,
                                    code,
                                    consts,
                                    pc0,
                                    stack0,
                                    res,
                                ) by {
                                    assert(self.spec_stack() == stack_prev.drop_last().push(
                                        Value::Number(x),
                                    ));
                                    assert(spec_value_num(stack_prev.last()) == val);
                                }
                            }
                        },
                    }
                },
                OpCode::Return => {
                    let value = match self.pop_stack() {
                        Ok(v) => v,
                        Err(e) => {
                            return Err(InterpretError::RuntimeError(e));
                        },
                    };
                    proof {
                        assert(spec_reaches(
                            binary,
                            negate,
                            code,
                            consts,
                            pc_prev,
                            stack_prev,
                            value,
                        ));
                    }
                    return Ok(value);
                },
            }
        }
    }

    /// Pop the right operand, then the left, and push the value the
    /// caller-supplied arithmetic produces for them.
    fn binary_step<F: Fn(BinaryOp, u64, u64) -> u64>(&mut self, op: BinaryOp, binary: &F) -> (r:
        Result<(), RuntimeError>)
        requires
            forall|o: BinaryOp, a: u64, b: u64| call_requires(*binary, (o, a, b)),
        ensures
            final(self).spec_chunk() == old(self).spec_chunk(),
            final(self).spec_pc() == old(self).spec_pc(),
            if old(self).spec_stack().len() >= 2 {
                r is Ok && exists|x: u64|
                    #[trigger] call_ensures(
                        *binary,
                        (
                            op,
                            spec_value_num(
                                old(self).spec_stack()[old(self).spec_stack().len() - 2],
                            ),
                            spec_value_num(old(self).spec_stack().last()),
                        ),
                        x,
                    ) && final(self).spec_stack() == old(self).spec_stack().drop_last().drop_last().push(Value::Number(x))
            } else {
                r == Err::<(), RuntimeError>(RuntimeError::StackUnderflow)
            },
    {
        let rhs = match self.pop_stack() {
            Ok(v) => v,
            Err(e) => {
                return Err(e);
            },
        };
        let lhs = match self.pop_stack() {
            Ok(v) => v,
            Err(e) => {
                return Err(e);
            },
        };
        match (rhs, lhs) {
            (Value::Number(b), Value::Number(a)) => {
                let x = (*binary)(op, a, b);
                self.push_stack(Value::Number(x));
                Ok(())
            },
        }
    }

    /// After a successful binary step at `pc_prev`, any result reachable from
    /// the new state was already reachable from the old one.
    proof fn lemma_binary_step_reaches<F: Fn(BinaryOp, u64, u64) -> u64, G: Fn(u64) -> u64>(
        &self,
        binary: F,
        negate: G,
        code: Seq<OpCode>,
        consts: Seq<Value>,
        pc0: int,
        stack0: Seq<Value>,
        pc_prev: int,
        stack_prev: Seq<Value>,
        op: BinaryOp,
    )
        requires
            0 <= pc_prev < code.len(),
            code[pc_prev] == match op {
                BinaryOp::Add => OpCode::Add,
                BinaryOp::Subtract => OpCode::Subtract,
                BinaryOp::Multiply => OpCode::Multiply,
                BinaryOp::Divide => OpCode::Divide,
            },
            stack_prev.len() >= 2,
            self.spec_pc() == pc_prev + 1,
            exists|x: u64|
                #[trigger] call_ensures(
                    binary,
                    (
                        op,
                        spec_value_num(stack_prev[stack_prev.len() - 2]),
                        spec_value_num(stack_prev.last()),
                    ),
                    x,
                ) && self.spec_stack() == stack_prev.drop_last().drop_last().push(Value::Number(x)),
            forall|res: Value|
                spec_reaches(binary, negate, code, consts, pc_prev, stack_prev, res)
                    ==> spec_reaches(binary, negate, code, consts, pc0, stack0, res),
        ensures
            forall|res: Value|
                spec_reaches(binary, negate, code, consts, self.spec_pc(), self.spec_stack(), res)
                    ==> spec_reaches(binary, negate, code, consts, pc0, stack0, res),
    {
        assert forall|res: Value|
            spec_reaches(binary, negate, code, consts, self.spec_pc(), self.spec_stack(), res)
                implies spec_reaches(binary, negate, code, consts, pc0, stack0, res) by {
            assert(spec_reaches_binary(
                binary,
                negate,
                code,
                consts,
                pc_prev,
                stack_prev,
                res,
                op,
            ));
        }
    }
}

/// A `Return` instruction at or after the program counter keeps the dispatch
/// loop from running off the end of the code, whatever the stack holds: the
/// counter only ever moves forward one instruction at a time.
pub proof fn lemma_return_keeps_pc_in_code(code: Seq<OpCode>, n_consts: nat, pc: int, depth: nat)
    requires
        0 <= pc,
        exists|i: int| pc <= i < code.len() && code[i] == OpCode::Return,
    ensures
        spec_outcome(code, n_consts, pc, depth) != ExecOutcome::RunsOffEnd,
    decreases code.len() - pc,
{
    let i = choose|i: int| pc <= i < code.len() && code[i] == OpCode::Return;
    if code[pc] != OpCode::Return {
        assert(pc + 1 <= i < code.len() && code[i] == OpCode::Return);
        lemma_return_keeps_pc_in_code(code, n_consts, pc + 1, (depth + 1) as nat);
        lemma_return_keeps_pc_in_code(code, n_consts, pc + 1, depth);
        if depth >= 1 {
            lemma_return_keeps_pc_in_code(code, n_consts, pc + 1, (depth - 1) as nat);
        }
    }
}

/// A binary arithmetic instruction reached with fewer than two values on the
/// evaluation stack makes the whole run end in a stack underflow; in
/// particular a chunk that begins with a bare `Add` and no prior pushes.
pub proof fn lemma_bare_binary_op_underflows(code: Seq<OpCode>, n_consts: nat)
    requires
        code.len() > 0,
        code[0] == OpCode::Add || code[0] == OpCode::Subtract || code[0] == OpCode::Multiply
            || code[0] == OpCode::Divide,
    ensures
        spec_outcome(code, n_consts, 0, 0) == ExecOutcome::Underflows,
{
}

/// A `Constant` instruction whose operand points past the end of the constant
/// pool makes the whole run end in the invalid-chunk error; in particular a
/// chunk that begins with such an instruction.
pub proof fn lemma_bad_constant_index_detected(code: Seq<OpCode>, n_consts: nat, i: usize)
    requires
        code.len() > 0,
        code[0] == OpCode::Constant(i),
        i as nat >= n_consts,
    ensures
        spec_outcome(code, n_consts, 0, 0) == ExecOutcome::BadConstant,
{
}

} // verus!
