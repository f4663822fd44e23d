//! Bytecode chunks: an append-only container of instructions, a parallel
//! per-instruction source-line table, and a constant pool.

use vstd::prelude::*;
use vstd::string::*;

verus! {

/// One instruction of the bytecode instruction set. `Constant` carries an
/// inline operand (an index into the chunk's constant pool); all other
/// instructions are nullary.
#[derive(PartialEq, Eq, Structural, Clone, Copy, Debug)]
pub enum OpCode {
    Constant(usize),
    Add,
    Subtract,
    Multiply,
    Divide,
    Negate,
    Return,
}

/// A runtime value. The single current variant holds a number as its opaque
/// 64-bit encoding; the arithmetic on encodings is supplied to the virtual
/// machine by its caller, which keeps the numeric domain (an IEEE-754 double
/// in the shipped driver) outside the verified core. The enum is open-ended
/// so that further variants can be added without breaking the chunk/VM
/// contract.
#[derive(PartialEq, Eq, Structural, Clone, Copy, Debug)]
pub enum Value {
    Number(u64),
}

/// The numeric payload of a value.
pub open spec fn spec_value_num(v: Value) -> u64 {
    match v {
        Value::Number(n) => n,
    }
}

/// A compiled, immutable-after-construction sequence of instructions plus its
/// constant pool and per-instruction source-line table.
#[derive(Clone, Debug)]
pub struct Chunk {
    pub code: Vec<OpCode>,
    pub constants: Vec<Value>,
    pub lines: Vec<usize>,
}

impl Chunk {
    /// The line table runs in parallel with the instruction sequence.
    pub open spec fn lines_ok(&self) -> bool {
        self.lines@.len() == self.code@.len()
    }

    /// Every `Constant` instruction refers to an existing constant.
    pub open spec fn constants_ok(&self) -> bool {
        forall|i: int|
            0 <= i < self.code@.len() ==> (#[trigger] self.code@[i] matches OpCode::Constant(k)
                ==> k < self.constants@.len())
    }

    pub fn new() -> (r: Self)
        ensures
            r.code@ =~= Seq::<OpCode>::empty(),
            r.constants@ =~= Seq::<Value>::empty(),
            r.lines@ =~= Seq::<usize>::empty(),
    {
        Chunk { code: Vec::new(), constants: Vec::new(), lines: Vec::new() }
    }

    /// Append one instruction together with the source line it came from.
    pub fn write(&mut self, op_code: OpCode, line: usize)
        ensures
            final(self).code@ == old(self).code@.push(op_code),
            final(self).lines@ == old(self).lines@.push(line),
            final(self).constants@ == old(self).constants@,
    {
        self.code.push(op_code);
        self.lines.push(line);
    }

    /// Bounds-checked instruction lookup.
    pub fn code_at(&self, offset: usize) -> (r: Option<OpCode>)
        ensures
            r == if offset < self.code@.len() {
                Some(self.code@[offset as int])
            } else {
                None::<OpCode>
            },
    {
        if offset < self.code.len() {
            Some(self.code[offset])
        } else {
            None
        }
    }

    /// Bounds-checked constant lookup.
    pub fn constant_at(&self, offset: usize) -> (r: Option<Value>)
        ensures
            r == if offset < self.constants@.len() {
                Some(self.constants@[offset as int])
            } else {
                None::<Value>
            },
    {
        if offset < self.constants.len() {
            Some(self.constants[offset])
        } else {
            None
        }
    }

    /// Whether some instruction is a `Return`. Execution only ever moves
    /// forward one instruction at a time, so a chunk with a `Return` can
    /// never run the program counter off the end of the code.
    pub fn has_return(&self) -> (r: bool)
        ensures
            r == exists|k: int| 0 <= k < self.code@.len() && self.code@[k] == OpCode::Return,
    {
        let n: usize = self.code.len();
        let mut i: usize = 0;
        while i < n
            invariant
                n == self.code@.len(),
                i <= n,
                forall|k: int| 0 <= k < i ==> self.code@[k] != OpCode::Return,
            decreases n - i,
        {
            if self.code[i] == OpCode::Return {
                return true;
            }
            i += 1;
        }
        false
    }

    /// Append a value to the constant pool and return its stable index.
    pub fn push_constant(&mut self, value: Value) -> (r: usize)
        ensures
            final(self).constants@ == old(self).constants@.push(value),
            final(self).code@ == old(self).code@,
            final(self).lines@ == old(self).lines@,
            r == old(self).constants@.len(),
    {
        self.constants.push(value);
        self.constants.len() - 1
    }
}

/// The character for one decimal digit.
pub open spec fn spec_digit_char(d: nat) -> char {
    if d == 0 {
        '0'
    } else if d == 1 {
        '1'
    } else if d == 2 {
        '2'
    } else if d == 3 {
        '3'
    } else if d == 4 {
        '4'
    } else if d == 5 {
        '5'
    } else if d == 6 {
        '6'
    } else if d == 7 {
        '7'
    } else if d == 8 {
        '8'
    } else {
        '9'
    }
}

/// The decimal rendering of `n`, most significant digit first, no sign and
/// no leading zeroes (a single `0` for zero).
pub open spec fn spec_dec(n: nat) -> Seq<char>
    decreases n,
{
    if n < 10 {
        seq![spec_digit_char(n)]
    } else {
        spec_dec(n / 10) + seq![spec_digit_char(n % 10)]
    }
}

pub open spec fn spec_repeat(c: char, n: nat) -> Seq<char>
    decreases n,
{
    if n == 0 {
        Seq::<char>::empty()
    } else {
        spec_repeat(c, (n - 1) as nat).push(c)
    }
}

/// `s`, padded on the left with `fill` up to `width` characters.
pub open spec fn spec_pad_left(s: Seq<char>, width: nat, fill: char) -> Seq<char> {
    if s.len() >= width {
        s
    } else {
        spec_repeat(fill, (width - s.len()) as nat) + s
    }
}

/// `s`, padded on the right with spaces up to `width` characters.
pub open spec fn spec_pad_right(s: Seq<char>, width: nat) -> Seq<char> {
    if s.len() >= width {
        s
    } else {
        s + spec_repeat(' ', (width - s.len()) as nat)
    }
}

/// The mnemonic the disassembler prints for each instruction.
pub open spec fn spec_opcode_name(op: OpCode) -> Seq<char> {
    match op {
        OpCode::Constant(_) => "OP_CONSTANT"@,
        OpCode::Add => "OP_ADD"@,
        OpCode::Subtract => "OP_SUBTRACT"@,
        OpCode::Multiply => "OP_MULTIPLY"@,
        OpCode::Divide => "OP_DIVIDE"@,
        OpCode::Negate => "OP_NEGATE"@,
        OpCode::Return => "OP_RETURN"@,
    }
}

/// The line-number column of one disassembled instruction: the source line,
/// right-aligned, except that an instruction on the same source line as its
/// predecessor renders a placeholder instead of repeating the number.
pub open spec fn spec_line_column(chunk: Chunk, offset: int) -> Seq<char> {
    if offset > 0 && chunk.lines@[offset] == chunk.lines@[offset - 1] {
        seq![' ', ' ', ' ', '|', ' ']
    } else {
        spec_pad_left(spec_dec(chunk.lines@[offset] as nat), 4, ' ') + seq![' ']
    }
}

/// One disassembled instruction: `OFFSET LINE OPNAME [operand info]`. A
/// `Constant` instruction also renders its pool index and, between quotes,
/// the rendering `val` of the constant's value.
pub open spec fn spec_disasm_line(chunk: Chunk, offset: int, val: Seq<char>) -> Seq<char> {
    spec_pad_left(spec_dec(offset as nat), 4, '0') + seq![' '] + spec_line_column(chunk, offset)
        + (match chunk.code@[offset] {
        OpCode::Constant(i) => spec_pad_right(spec_opcode_name(chunk.code@[offset]), 16)
            + seq![' '] + spec_pad_left(spec_dec(i as nat), 4, ' ') + seq![' ', '\''] + val
            + seq!['\''],
        _ => spec_opcode_name(chunk.code@[offset]),
    })
}

/// Two consecutive instructions on the same source line render the second
/// line-number column as the `   | ` placeholder rather than repeating the
/// number; every other instruction renders its line number.
pub proof fn lemma_line_column_placeholder(chunk: Chunk, offset: int)
    requires
        0 <= offset < chunk.lines@.len(),
    ensures
        offset > 0 && chunk.lines@[offset] == chunk.lines@[offset - 1]
            ==> spec_line_column(chunk, offset) == seq![' ', ' ', ' ', '|', ' '],
        offset == 0 || chunk.lines@[offset] != chunk.lines@[offset - 1]
            ==> spec_line_column(chunk, offset) == spec_pad_left(
            spec_dec(chunk.lines@[offset] as nat),
            4,
            ' ',
        ) + seq![' '],
{
}

fn digit_str(d: u64) -> (r: &'static str)
    requires
        d < 10,
    ensures
        r@ == seq![spec_digit_char(d as nat)],
{
    proof {
        reveal_strlit("0");
        reveal_strlit("1");
        reveal_strlit("2");
        reveal_strlit("3");
        reveal_strlit("4");
        reveal_strlit("5");
        reveal_strlit("6");
        reveal_strlit("7");
        reveal_strlit("8");
        reveal_strlit("9");
    }
    let r = if d == 0 {
        "0"
    } else if d == 1 {
        "1"
    } else if d == 2 {
        "2"
    } else if d == 3 {
        "3"
    } else if d == 4 {
        "4"
    } else if d == 5 {
        "5"
    } else if d == 6 {
        "6"
    } else if d == 7 {
        "7"
    } else if d == 8 {
        "8"
    } else {
        "9"
    };
    proof {
        assert(r@ =~= seq![spec_digit_char(d as nat)]);
    }
    r
}

/// Decimal rendering of an unsigned machine integer.
fn render_u64(n: u64) -> (r: String)
    ensures
        r@ == spec_dec(n as nat),
    decreases n,
{
    if n < 10 {
        digit_str(n).to_owned()
    } else {
        let front = render_u64(n / 10);
        let r = front.concat(digit_str(n % 10));
        proof {
            assert(r@ =~= spec_dec(n as nat));
        }
        r
    }
}

/// Left-pad with zeroes (for offsets) or spaces (for line numbers and pool
/// indices) to the given width.
fn pad_left(s: String, width: usize, zero: bool) -> (r: String)
    ensures
        r@ == spec_pad_left(s@, width as nat, if zero {
            '0'
        } else {
            ' '
        }),
{
    let ghost fill = if zero { '0' } else { ' ' };
    let n: usize = s.as_str().unicode_len();
    let mut pad = String::new();
    let mut k: usize = n;
    while k < width
        invariant
            n <= k,
            k <= n || k <= width,
            pad@ =~= spec_repeat(fill, (k - n) as nat),
            fill == (if zero { '0' } else { ' ' }),
        decreases width - k,
    {
        let ghost pad0 = pad@;
        proof {
            reveal_strlit("0");
            reveal_strlit(" ");
        }
        if zero {
            pad.append("0");
            proof {
                assert(pad@ =~= pad0.push('0'));
            }
        } else {
            pad.append(" ");
            proof {
                assert(pad@ =~= pad0.push(' '));
            }
        }
        proof {
            assert(pad@ =~= spec_repeat(fill, (k + 1 - n) as nat));
        }
        k = k + 1;
    }
    let r = pad.concat(s.as_str());
    proof {
        assert(r@ =~= spec_pad_left(s@, width as nat, fill));
    }
    r
}

/// Right-pad with spaces to the given width (for the mnemonic column).
fn pad_right(s: &str, width: usize) -> (r: String)
    ensures
        r@ == spec_pad_right(s@, width as nat),
{
    let n: usize = s.unicode_len();
    let mut r = s.to_owned();
    let mut k: usize = n;
    while k < width
        invariant
            n <= k,
            k <= n || k <= width,
            r@ =~= s@ + spec_repeat(' ', (k - n) as nat),
        decreases width - k,
    {
        r.append(" ");
        proof {
            reveal_strlit(" ");
            assert(r@ =~= s@ + spec_repeat(' ', (k + 1 - n) as nat));
        }
        k = k + 1;
    }
    proof {
        assert(r@ =~= spec_pad_right(s@, width as nat));
    }
    r
}

fn opcode_name(op: OpCode) -> (r: &'static str)
    ensures
        r@ == spec_opcode_name(op),
{
    match op {
        OpCode::Constant(_) => "OP_CONSTANT",
        OpCode::Add => "OP_ADD",
        OpCode::Subtract => "OP_SUBTRACT",
        OpCode::Multiply => "OP_MULTIPLY",
        OpCode::Divide => "OP_DIVIDE",
        OpCode::Negate => "OP_NEGATE",
        OpCode::Return => "OP_RETURN",
    }
}

/// Render one instruction as `OFFSET LINE OPNAME [operand info]`. The caller
/// supplies the rendering of constant values (their numeric encodings are
/// opaque here); `render` is only consulted for `Constant` instructions.
pub fn disassemble_instruction<F: Fn(u64) -> String>(chunk: &Chunk, offset: usize, render: &F) -> (r:
    String)
    requires
        chunk.lines_ok(),
        chunk.constants_ok(),
        offset < chunk.code@.len(),
        forall|n: u64| call_requires(*render, (n,)),
    ensures
        match chunk.code@[offset as int] {
            OpCode::Constant(i) => exists|val: String|
                #[trigger] call_ensures(*render, (spec_value_num(chunk.constants@[i as int]),), val)
                    && r@ == spec_disasm_line(*chunk, offset as int, val@),
            _ => r@ == spec_disasm_line(*chunk, offset as int, Seq::<char>::empty()),
        },
{
    proof {
        reveal_strlit(" ");
        reveal_strlit("   | ");
        reveal_strlit(" '");
        reveal_strlit("'");
        assert(" "@ =~= seq![' ']);
        assert("   | "@ =~= seq![' ', ' ', ' ', '|', ' ']);
        assert(" '"@ =~= seq![' ', '\'']);
        assert("'"@ =~= seq!['\'']);
    }
    let mut out = pad_left(render_u64(offset as u64), 4, true);
    out.append(" ");
    if offset > 0 && chunk.lines[offset] == chunk.lines[offset - 1] {
        out.append("   | ");
    } else {
        let line_col = pad_left(render_u64(chunk.lines[offset] as u64), 4, false);
        out.append(line_col.as_str());
        out.append(" ");
    }
    let instruction = chunk.code[offset];
    match instruction {
        OpCode::Constant(i) => {
            proof {
                assert(chunk.code@[offset as int] matches OpCode::Constant(k) ==> k
                    < chunk.constants@.len());
            }
            let name = pad_right(opcode_name(instruction), 16);
            out.append(name.as_str());
            out.append(" ");
            let idx = pad_left(render_u64(i as u64), 4, false);
            out.append(idx.as_str());
            out.append(" '");
            let num = match chunk.constants[i] {
                Value::Number(num) => num,
            };
            let val = (*render)(num);
            out.append(val.as_str());
            out.append("'");
            proof {
                assert(out@ =~= spec_disasm_line(*chunk, offset as int, val@));
                assert(call_ensures(
                    *render,
                    (spec_value_num(chunk.constants@[i as int]),),
                    val,
                ));
            }
        },
        _ => {
            out.append(opcode_name(instruction));
            proof {
                assert(out@ =~= spec_disasm_line(*chunk, offset as int, Seq::<char>::empty()));
            }
        },
    }
    out
}

/// The header line of a whole-chunk disassembly.
pub open spec fn spec_disasm_header(name: Seq<char>) -> Seq<char> {
    "== "@ + name + " == "@ + "\n"@
}

/// `l` is a valid rendering of instruction `j` of `chunk`, with constant
/// values rendered by `render`.
pub open spec fn spec_line_rendered<F: Fn(u64) -> String>(
    chunk: Chunk,
    j: int,
    render: F,
    l: String,
) -> bool {
    match chunk.code@[j] {
        OpCode::Constant(i) => exists|val: String|
            #[trigger] call_ensures(render, (spec_value_num(chunk.constants@[i as int]),), val)
                && l@ == spec_disasm_line(chunk, j, val@),
        _ => l@ == spec_disasm_line(chunk, j, Seq::<char>::empty()),
    }
}

/// The first `n` of the given lines, each followed by a newline.
pub open spec fn spec_join_lines(ls: Seq<String>, n: int) -> Seq<char>
    decreases n,
{
    if n <= 0 {
        Seq::<char>::empty()
    } else {
        spec_join_lines(ls, n - 1) + ls[n - 1]@ + "\n"@
    }
}

proof fn lemma_join_lines_push(ls: Seq<String>, x: String, n: int)
    requires
        0 <= n <= ls.len(),
    ensures
        spec_join_lines(ls.push(x), n) == spec_join_lines(ls, n),
    decreases n,
{
    if n > 0 {
        lemma_join_lines_push(ls, x, n - 1);
        assert(ls.push(x)[n - 1] == ls[n - 1]);
    }
}

impl Chunk {
    /// Render the whole chunk: a `== name == ` header line, then every
    /// instruction on a line of its own, in order.
    pub fn disassemble<F: Fn(u64) -> String>(&self, name: &str, render: &F) -> (r: String)
        requires
            self.lines_ok(),
            self.constants_ok(),
            forall|m: u64| call_requires(*render, (m,)),
        ensures
            exists|ls: Seq<String>|
                ls.len() == self.code@.len() && (forall|j: int|
                    0 <= j < self.code@.len() ==> #[trigger] spec_line_rendered(
                        *self,
                        j,
                        *render,
                        ls[j],
                    )) && r@ == spec_disasm_header(name@) + spec_join_lines(
                    ls,
                    self.code@.len() as int,
                ),
    {
        let mut out = String::from_str("== ");
        out.append(name);
        out.append(" == ");
        out.append("\n");
        proof {
            assert(out@ =~= spec_disasm_header(name@) + spec_join_lines(
                Seq::<String>::empty(),
                0,
            ));
        }
        let n: usize = self.code.len();
        let mut offset: usize = 0;
        let ghost mut ls = Seq::<String>::empty();
        while offset < n
            invariant
                self.lines_ok(),
                self.constants_ok(),
                forall|m: u64| call_requires(*render, (m,)),
                n == self.code@.len(),
                offset <= n,
                ls.len() == offset,
                forall|j: int|
                    0 <= j < offset ==> #[trigger] spec_line_rendered(*self, j, *render, ls[j]),
                out@ == spec_disasm_header(name@) + spec_join_lines(ls, offset as int),
            decreases n - offset,
        {
            let line = disassemble_instruction(self, offset, render);
            out.append(line.as_str());
            out.append("\n");
            proof {
                assert(spec_line_rendered(*self, offset as int, *render, line));
                let ghost ls0 = ls;
                ls = ls.push(line);
                lemma_join_lines_push(ls0, line, offset as int);
                assert(out@ =~= spec_disasm_header(name@) + spec_join_lines(
                    ls,
                    offset + 1 as int,
                ));
            }
            offset += 1;
        }
        out
    }
}

} // verus!
