//! The stack machine. It decides everything but the arithmetic on numbers:
//! that, and the rendering of a number, it hands to the host as a `Step`,
//! and the host pushes the result back.
use vstd::prelude::*;
use vstd::string::*;
use crate::chunk::{
    Byte, Chunk, OpCode, code_ok, decode_opcode, lemma_code_ok_at, takes_operand, width,
};
use crate::compiler::{ErrorResult, code_bytes, error_message, error_text, reported};
use crate::value::{Val, Value, display_text, is_falsey, val_falsey, val_same, val_text};

verus! {

/// The most values the evaluation stack holds.
pub const STACK_MAX: usize = 256;

/// An operation on two numbers, carried out by the host.
#[derive(Clone, Copy, PartialEq, Eq, Structural, Debug)]
pub enum NumberOp {
    Add,
    Subtract,
    Multiply,
    Divide,
    Greater,
    Less,
    Equal,
}

/// Why `run` stopped without an error.
#[derive(Debug)]
pub enum Step {
    /// `Return` was reached.
    Halt,
    /// Text for the print sink: a value's display text and a newline.
    Output(String),
    /// A number to render in decimal, with a newline, for the print sink.
    PrintNumber(String),
    /// `a op b` on two numbers: the host pushes the number (or, for a
    /// comparison, the bool) that results.
    Binary(NumberOp, String, String),
    /// The negation of a number: the host pushes it.
    Negate(String),
}

/// Equality of two values of which at most one is a number: the same kind
/// and the same contents.
pub open spec fn same_value(a: Value, b: Value) -> bool {
    val_same(a@, b@)
}

/// Compares two values of which at most one is a number.
pub fn values_equal(a: &Value, b: &Value) -> (r: bool)
    requires
        !(a is Number && b is Number),
    ensures
        r == same_value(*a, *b),
{
    match (a, b) {
        (Value::Bool(x), Value::Bool(y)) => *x == *y,
        (Value::String(x), Value::String(y)) => x.eq(y),
        (Value::Nil, Value::Nil) => true,
        _ => false,
    }
}

/// The host operation of an arithmetic or comparison instruction.
pub open spec fn number_op(op: OpCode) -> Option<NumberOp> {
    match op {
        OpCode::Subtract => Some(NumberOp::Subtract),
        OpCode::Multiply => Some(NumberOp::Multiply),
        OpCode::Divide => Some(NumberOp::Divide),
        OpCode::Greater => Some(NumberOp::Greater),
        OpCode::Less => Some(NumberOp::Less),
        _ => None,
    }
}

/// The message of an undefined-variable error.
pub open spec fn undefined_message(name: Seq<char>) -> Seq<char> {
    "Undefined variable "@ + name
}

/// Where a run or a step stops: the end, a request to the host, or a
/// failure with its diagnostic.
pub enum Outcome {
    Halt,
    Output(Seq<char>),
    PrintNumber(Seq<char>),
    Binary(NumberOp, Seq<char>, Seq<char>),
    Negate(Seq<char>),
    Fail(Seq<char>),
}

pub open spec fn outcome_of(s: Step) -> Outcome {
    match s {
        Step::Halt => Outcome::Halt,
        Step::Output(t) => Outcome::Output(t@),
        Step::PrintNumber(t) => Outcome::PrintNumber(t@),
        Step::Binary(op, a, b) => Outcome::Binary(op, a@, b@),
        Step::Negate(t) => Outcome::Negate(t@),
    }
}

/// What a call of `step` gives: `None` to go on.
pub open spec fn step_outcome(r: ErrorResult<Option<Step>>) -> Option<Outcome> {
    match r {
        Err(e) => Some(Outcome::Fail(e@)),
        Ok(None) => None,
        Ok(Some(s)) => Some(outcome_of(s)),
    }
}

/// What a call of `run` gives.
pub open spec fn run_outcome(r: ErrorResult<Step>) -> Outcome {
    match r {
        Err(e) => Outcome::Fail(e@),
        Ok(s) => outcome_of(s),
    }
}

/// A machine as the contracts see it: its position, the line of the
/// instruction read last, its stack (bottom first) and its globals.
pub type MState = (nat, nat, Seq<Val>, Map<Seq<char>, Val>);

pub open spec fn fail(line: nat, message: Seq<char>) -> Option<Outcome> {
    Some(Outcome::Fail(error_text(line, message)))
}

/// One instruction of `code`, with constant pool `pool`, from state `s`:
/// the next state (where it does not fail) and where it stops, if it does.
pub open spec fn step_spec(code: Seq<Byte>, pool: Seq<Val>, s: MState) -> (MState, Option<Outcome>) {
    let (ip, line, st, g) = s;
    if ip >= code.len() {
        (s, fail(line, "Ran past the end of the code."@))
    } else {
        let l = code[ip as int].line as nat;
        let n = ip + 1;
        let operand = n < code.len() && (code[n as int].byte as nat) < pool.len();
        let k = pool[code[n as int].byte as int];
        let name = val_text(k);
        let len = st.len();
        let top = st.last();
        let below = st[len - 2];
        let drop1 = st.drop_last();
        let drop2 = drop1.drop_last();
        let under = fail(l, "Stack underflow."@);
        let over = fail(l, "Stack overflow."@);
        let bad = fail(l, "Invalid constant operand."@);
        match decode_opcode(code[ip as int].byte) {
            None => (s, fail(l, "Unknown instruction."@)),
            Some(op) => match op {
                OpCode::Return => ((n, l, st, g), Some(Outcome::Halt)),
                OpCode::Constant => if !operand { (s, bad) } else if len >= STACK_MAX { (s, over) } else {
                    ((n + 1, l, st.push(k), g), None)
                },
                OpCode::Nil => if len >= STACK_MAX { (s, over) } else { ((n, l, st.push(Val::Nil), g), None) },
                OpCode::True => if len >= STACK_MAX { (s, over) } else { ((n, l, st.push(Val::Bool(true)), g), None) },
                OpCode::False => if len >= STACK_MAX { (s, over) } else { ((n, l, st.push(Val::Bool(false)), g), None) },
                OpCode::Negate => if len < 1 { (s, under) } else if top is Number {
                    ((n, l, drop1, g), Some(Outcome::Negate(top->Number_0)))
                } else {
                    (s, fail(l, "Operand(s) must be a number."@))
                },
                OpCode::Add => if len < 2 { (s, under) } else if below is Str && top is Str {
                    ((n, l, drop2.push(Val::Str(below->Str_0 + top->Str_0)), g), None)
                } else if below is Number && top is Number {
                    ((n, l, drop2, g), Some(Outcome::Binary(NumberOp::Add, below->Number_0, top->Number_0)))
                } else {
                    (s, fail(l, "Invalid operands."@))
                },
                OpCode::Subtract | OpCode::Multiply | OpCode::Divide | OpCode::Greater | OpCode::Less => if len
                    < 2 { (s, under) } else if below is Number && top is Number {
                    ((n, l, drop2, g), Some(Outcome::Binary(number_op(op)->0, below->Number_0, top->Number_0)))
                } else {
                    (s, fail(l, "Operands must be numbers."@))
                },
                OpCode::Not => if len < 1 { (s, under) } else {
                    ((n, l, drop1.push(Val::Bool(val_falsey(top))), g), None)
                },
                OpCode::Equal => if len < 2 { (s, under) } else if below is Number && top is Number {
                    ((n, l, drop2, g), Some(Outcome::Binary(NumberOp::Equal, below->Number_0, top->Number_0)))
                } else {
                    ((n, l, drop2.push(Val::Bool(val_same(below, top))), g), None)
                },
                OpCode::Print => if len < 1 { (s, under) } else if top is Number {
                    ((n, l, drop1, g), Some(Outcome::PrintNumber(top->Number_0)))
                } else {
                    ((n, l, drop1, g), Some(Outcome::Output(val_text(top) + "\n"@)))
                },
                OpCode::Pop => if len < 1 { (s, under) } else { ((n, l, drop1, g), None) },
                OpCode::DefineGlobal => if !operand { (s, bad) } else if len < 1 { (s, under) } else {
                    ((n + 1, l, drop1, g.insert(name, top)), None)
                },
                OpCode::GetGlobal => if !operand { (s, bad) } else if !g.contains_key(name) {
                    (s, fail(l, undefined_message(name)))
                } else if len >= STACK_MAX {
                    (s, over)
                } else {
                    ((n + 1, l, st.push(g[name]), g), None)
                },
                OpCode::SetGlobal => if !operand { (s, bad) } else if !g.contains_key(name) {
                    (s, fail(l, undefined_message(name)))
                } else if len < 1 {
                    (s, under)
                } else {
                    ((n + 1, l, st, g.insert(name, top)), None)
                },
            },
        }
    }
}

/// Running from state `s`: steps until one stops, and the state then.
pub open spec fn run_from(code: Seq<Byte>, pool: Seq<Val>, s: MState) -> (MState, Outcome)
    decreases code.len() - s.0,
{
    let (next, out) = step_spec(code, pool, s);
    match out {
        Some(o) => (next, o),
        None => if s.0 < next.0 <= code.len() {
            run_from(code, pool, next)
        } else {
            (next, Outcome::Halt)
        },
    }
}

/// A fresh machine on a chunk: at its start, with an empty stack and no
/// globals.
pub open spec fn fresh_state() -> MState {
    (0, 0, Seq::empty(), Map::empty())
}

/// The views of a chunk's constants.
pub open spec fn pool_view(c: Chunk) -> Seq<Val> {
    c.constants().map_values(|v: Value| v@)
}

/// The value bound to `n` among parallel lists of names and values.
pub open spec fn lookup(names: Seq<String>, values: Seq<Value>, n: Seq<char>) -> Option<Value> {
    if exists|i: int| 0 <= i < names.len() && names[i]@ == n {
        let i = choose|i: int| 0 <= i < names.len() && names[i]@ == n;
        Some(values[i])
    } else {
        None
    }
}

/// The globals as a map from names to views.
pub open spec fn globals_of(names: Seq<String>, values: Seq<Value>) -> Map<Seq<char>, Val> {
    Map::new(|n: Seq<char>| lookup(names, values, n) is Some, |n: Seq<char>| lookup(names, values, n)->0@)
}

/// The virtual machine: the chunk it runs, where it stands, the evaluation
/// stack and the global variables.
pub struct VM {
    chunk: Chunk,
    ip: usize,
    current_instruction: Byte,
    stack: Vec<Value>,
    global_names: Vec<String>,
    global_values: Vec<Value>,
}

impl VM {
    pub closed spec fn wf(&self) -> bool {
        &&& self.stack@.len() <= STACK_MAX
        &&& self.global_names@.len() == self.global_values@.len()
        &&& self.ip <= self.chunk.code().len()
        &&& forall|i: int, j: int|
            0 <= i < self.global_names@.len() && 0 <= j < self.global_names@.len() && i != j
                ==> self.global_names@[i]@ != self.global_names@[j]@
    }

    /// The instruction at the machine's position, if the byte there decodes.
    pub closed spec fn next_op(&self) -> Option<OpCode> {
        if self.ip < self.chunk.code().len() {
            decode_opcode(self.chunk.code()[self.ip as int].byte)
        } else {
            None
        }
    }

    /// The source line of the byte at the machine's position.
    pub closed spec fn next_line(&self) -> nat {
        self.chunk.code()[self.ip as int].line as nat
    }

    /// The byte after the machine's position is an index into the pool.
    pub closed spec fn operand_ok(&self) -> bool {
        &&& self.ip + 1 < self.chunk.code().len()
        &&& (self.chunk.code()[self.ip + 1].byte as nat) < self.chunk.constants().len()
    }

    /// The constant that the byte after the machine's position names.
    pub closed spec fn operand_constant(&self) -> Value {
        self.chunk.constants()[self.chunk.code()[self.ip + 1].byte as int]
    }

    proof fn lemma_global_at(&self, i: int)
        requires
            self.wf(),
            0 <= i < self.global_names@.len(),
        ensures
            self.global(self.global_names@[i]@) == Some(self.global_values@[i]),
    {
    }

    proof fn lemma_global_absent(&self, n: Seq<char>)
        requires
            forall|i: int| 0 <= i < self.global_names@.len() ==> self.global_names@[i]@ != n,
        ensures
            self.global(n) is None,
    {
    }

    /// The machine stands at the start of whole instructions that run to
    /// the end of the code.
    pub closed spec fn on_whole_code(&self) -> bool {
        code_ok(code_bytes(self.chunk.code()).skip(self.ip as int), self.chunk.constants())
    }

    /// On whole code, the byte at the machine's position decodes, and an
    /// instruction that takes an operand has one naming a constant.
    pub proof fn lemma_whole_code_decodes(&self)
        requires
            self.wf(),
            self.on_whole_code(),
            self.position() < self.code().len(),
        ensures
            self.next_op() is Some,
            takes_operand(self.next_op()->0) ==> self.operand_ok(),
    {
        let bytes = code_bytes(self.chunk.code());
        lemma_code_ok_at(bytes, self.chunk.constants(), self.ip as nat);
        assert(bytes[self.ip as int] == self.chunk.code()[self.ip as int].byte);
        if self.ip + 1 < self.chunk.code().len() {
            assert(bytes[self.ip + 1] == self.chunk.code()[self.ip + 1].byte);
        }
    }

    /// Both machines run the same chunk from the same place with the same
    /// globals.
    pub closed spec fn same_frame(&self, other: &VM) -> bool {
        &&& self.chunk == other.chunk
        &&& self.ip == other.ip
        &&& self.current_instruction == other.current_instruction
        &&& self.global_names == other.global_names
        &&& self.global_values == other.global_values
    }

    /// The code being run.
    pub closed spec fn code(&self) -> Seq<Byte> {
        self.chunk.code()
    }

    /// Where in the code the machine stands.
    pub closed spec fn position(&self) -> nat {
        self.ip as nat
    }

    /// The evaluation stack, bottom first.
    pub closed spec fn stack(&self) -> Seq<Value> {
        self.stack@
    }

    /// The value bound to `name`, if any.
    pub closed spec fn global(&self, name: Seq<char>) -> Option<Value> {
        lookup(self.global_names@, self.global_values@, name)
    }

    /// The views of the stack, bottom first.
    pub closed spec fn stack_view(&self) -> Seq<Val> {
        self.stack@.map_values(|v: Value| v@)
    }

    /// The machine's state as the contracts see it.
    pub closed spec fn mstate(&self) -> MState {
        (
            self.ip as nat,
            self.current_instruction.line as nat,
            self.stack_view(),
            globals_of(self.global_names@, self.global_values@),
        )
    }

    /// The views of the constants of the chunk being run.
    pub closed spec fn pool(&self) -> Seq<Val> {
        pool_view(self.chunk)
    }

    pub fn new() -> (r: Self)
        ensures
            r.wf(),
            r.stack() == Seq::<Value>::empty(),
            r.mstate() == fresh_state(),
    {
        let vm = Self {
            chunk: Chunk::new(),
            ip: 0,
            current_instruction: Byte::new(0, 0),
            stack: Vec::new(),
            global_names: Vec::new(),
            global_values: Vec::new(),
        };
        proof {
            assert(vm.stack_view() =~= Seq::<Val>::empty());
            assert(globals_of(vm.global_names@, vm.global_values@) =~= Map::<Seq<char>, Val>::empty());
        }
        vm
    }

    /// The source line of the instruction read last.
    pub fn line(&self) -> (r: usize)
        ensures
            r as nat == self.mstate().1,
    {
        self.current_instruction.line
    }

    /// The number of values on the stack.
    pub fn stack_len(&self) -> (r: usize)
        ensures
            r == self.stack().len(),
    {
        self.stack.len()
    }

    pub fn pop_value(&mut self) -> (r: Value)
        requires
            old(self).wf(),
            old(self).stack().len() > 0,
        ensures
            final(self).wf(),
            r == old(self).stack().last(),
            final(self).stack() == old(self).stack().drop_last(),
            final(self).stack_view() == old(self).stack_view().drop_last(),
            final(self).same_frame(old(self)),
    {
        let v = self.stack.pop();
        proof {
            assert(self.stack_view() =~= old(self).stack_view().drop_last());
        }
        match v {
            Some(v) => v,
            None => Value::Nil,
        }
    }

    pub fn push_value(&mut self, value: Value)
        requires
            old(self).wf(),
            old(self).stack().len() < STACK_MAX,
        ensures
            final(self).wf(),
            final(self).stack() == old(self).stack().push(value),
            final(self).stack_view() == old(self).stack_view().push(value@),
            final(self).same_frame(old(self)),
    {
        self.stack.push(value);
        proof {
            assert(self.stack_view() =~= old(self).stack_view().push(value@));
        }
    }

    /// Starts running `chunk` from its first byte, with an empty stack and no
    /// globals, and runs it as `run` does.
    pub fn interpret(&mut self, chunk: Chunk) -> (r: ErrorResult<Step>)
        requires
            old(self).wf(),
        ensures
            final(self).wf(),
            final(self).code() == chunk.code(),
            run_outcome(r) == run_from(chunk.code(), pool_view(chunk), fresh_state()).1,
            r is Ok ==> final(self).mstate() == run_from(chunk.code(), pool_view(chunk), fresh_state()).0,
            (code_ok(code_bytes(chunk.code()), chunk.constants()) && r is Ok) ==> final(self).on_whole_code(),
            reported(r),
    {
        self.chunk = chunk;
        self.ip = 0;
        self.stack = Vec::new();
        self.global_names = Vec::new();
        self.global_values = Vec::new();
        self.current_instruction = Byte::new(0, 0);
        proof {
            assert(self.stack_view() =~= Seq::<Val>::empty());
            assert(globals_of(self.global_names@, self.global_values@) =~= Map::<Seq<char>, Val>::empty());
            assert(self.mstate() == fresh_state());
            assert(code_bytes(self.chunk.code()).skip(0) =~= code_bytes(self.chunk.code()));
        }
        self.run()
    }

    /// A runtime error at the line of the instruction being executed.
    fn error(&self, message: &str) -> (r: ErrorResult<Step>)
        ensures
            r is Err,
            r->Err_0@ == error_text(self.current_instruction.line as nat, message@),
    {
        Err(error_message(self.current_instruction.line, message))
    }

    fn read_byte(&mut self) -> (r: Option<Byte>)
        requires
            old(self).wf(),
        ensures
            final(self).wf(),
            final(self).stack() == old(self).stack(),
            final(self).chunk == old(self).chunk,
            final(self).current_instruction == old(self).current_instruction,
            final(self).global_names == old(self).global_names,
            final(self).global_values == old(self).global_values,
            old(self).ip < old(self).chunk.code().len() ==> r == Some(old(self).chunk.code()[old(self).ip as int])
                && final(self).ip == old(self).ip + 1,
            old(self).ip >= old(self).chunk.code().len() ==> r is None,
            final(self).ip >= old(self).ip,
    {
        if self.ip >= self.chunk.code_len() {
            return None;
        }
        let b = self.chunk.get_byte(self.ip);
        self.ip = self.ip + 1;
        Some(b)
    }

    /// Reads an operand byte and the constant it names.
    fn read_constant(&mut self) -> (r: Option<Value>)
        requires
            old(self).wf(),
        ensures
            final(self).wf(),
            final(self).stack() == old(self).stack(),
            final(self).chunk == old(self).chunk,
            final(self).current_instruction == old(self).current_instruction,
            final(self).global_names == old(self).global_names,
            final(self).global_values == old(self).global_values,
            final(self).ip >= old(self).ip,
            r is Some ==> final(self).ip == old(self).ip + 1,
            r is Some ==> old(self).ip < old(self).chunk.code().len() && (old(self).chunk.code()[old(self).ip as int].byte as nat)
                < old(self).chunk.constants().len(),
            r matches Some(v) ==> old(self).ip < old(self).chunk.code().len() && v == old(self).chunk.constants()[
                old(self).chunk.code()[old(self).ip as int].byte as int],
            (old(self).ip < old(self).chunk.code().len() && (old(self).chunk.code()[old(self).ip as int].byte as nat)
                < old(self).chunk.constants().len()) ==> r is Some,
    {
        let b = self.read_byte();
        match b {
            None => None,
            Some(b) => {
                if (b.byte as usize) < self.chunk.constant_count() {
                    Some(self.chunk.get_value(b.byte))
                } else {
                    None
                }
            },
        }
    }

    /// Reads an operand byte and the display text of the constant it names:
    /// a variable's name.
    fn read_string(&mut self) -> (r: Option<String>)
        requires
            old(self).wf(),
        ensures
            final(self).wf(),
            final(self).stack() == old(self).stack(),
            final(self).chunk == old(self).chunk,
            final(self).current_instruction == old(self).current_instruction,
            final(self).global_names == old(self).global_names,
            final(self).global_values == old(self).global_values,
            final(self).ip >= old(self).ip,
            r is Some ==> final(self).ip == old(self).ip + 1,
            r is Some ==> old(self).ip < old(self).chunk.code().len() && (old(self).chunk.code()[old(self).ip as int].byte as nat)
                < old(self).chunk.constants().len(),
            r matches Some(t) ==> old(self).ip < old(self).chunk.code().len() && t@ == display_text(
                old(self).chunk.constants()[old(self).chunk.code()[old(self).ip as int].byte as int],
            ),
            (old(self).ip < old(self).chunk.code().len() && (old(self).chunk.code()[old(self).ip as int].byte as nat)
                < old(self).chunk.constants().len()) ==> r is Some,
    {
        match self.read_constant() {
            None => None,
            Some(v) => Some(v.to_text()),
        }
    }

    /// A copy of the value `distance` places below the top of the stack.
    fn peek(&self, distance: usize) -> (r: Value)
        requires
            distance < self.stack().len(),
        ensures
            r == self.stack()[self.stack().len() - 1 - distance],
    {
        self.stack[self.stack.len() - 1 - distance].duplicate()
    }

    /// Where `name` is bound among the globals, if it is.
    fn find_global(&self, name: &String) -> (r: Option<usize>)
        requires
            self.wf(),
        ensures
            r matches Some(i) ==> i < self.global_names@.len() && self.global_names@[i as int]@ == name@,
            r is None ==> forall|i: int| 0 <= i < self.global_names@.len() ==> self.global_names@[i]@ != name@,
    {
        let mut i: usize = 0;
        while i < self.global_names.len()
            invariant
                self.wf(),
                i <= self.global_names@.len(),
                forall|j: int| 0 <= j < i ==> self.global_names@[j]@ != name@,
            decreases self.global_names@.len() - i,
        {
            if self.global_names[i] == *name {
                return Some(i);
            }
            i = i + 1;
        }
        None
    }

    /// Concatenates the two strings on top of the stack, deeper one first.
    fn concat(&mut self)
        requires
            old(self).wf(),
            old(self).stack().len() >= 2,
            old(self).stack().last() is String,
            old(self).stack().drop_last().last() is String,
        ensures
            final(self).wf(),
            final(self).stack().len() == old(self).stack().len() - 1,
            final(self).stack().drop_last() == old(self).stack().drop_last().drop_last(),
            final(self).stack().last() is String,
            final(self).stack().last()->String_0@ == old(self).stack().drop_last().last()->String_0@
                + old(self).stack().last()->String_0@,
            final(self).stack_view() == old(self).stack_view().drop_last().drop_last().push(
                Val::Str(old(self).stack().drop_last().last()->String_0@ + old(self).stack().last()->String_0@),
            ),
            final(self).chunk == old(self).chunk,
            final(self).ip == old(self).ip,
            final(self).current_instruction == old(self).current_instruction,
            final(self).global_names == old(self).global_names,
            final(self).global_values == old(self).global_values,
    {
        let b = self.pop_value().as_string();
        let mut a = self.pop_value().as_string();
        a.append(b.as_str());
        self.push_value(Value::String(a));
    }

    /// Runs until `Return`, a step that needs the host, or the first error.
    pub fn run(&mut self) -> (r: ErrorResult<Step>)
        requires
            old(self).wf(),
        ensures
            final(self).wf(),
            final(self).code() == old(self).code(),
            final(self).pool() == old(self).pool(),
            run_outcome(r) == run_from(old(self).code(), old(self).pool(), old(self).mstate()).1,
            r is Ok ==> final(self).mstate() == run_from(old(self).code(), old(self).pool(), old(self).mstate()).0,
            (old(self).on_whole_code() && r is Ok) ==> final(self).on_whole_code(),
            reported(r),
    {
        loop
            invariant
                self.pool() == old(self).pool(),
                run_from(self.code(), self.pool(), self.mstate()) == run_from(old(self).code(), old(self).pool(), old(self).mstate()),
                old(self).on_whole_code() ==> self.on_whole_code(),
                self.wf(),
                self.ip <= self.chunk.code().len(),
                self.chunk.code() == old(self).chunk.code(),
                self.ip >= old(self).ip,
            decreases self.chunk.code().len() - self.ip,
        {
            match self.step() {
                Err(e) => {
                    return Err(e);
                },
                Ok(Some(step)) => {
                    return Ok(step);
                },
                Ok(None) => {},
            }
        }
    }

    /// Pops two numbers and hands `op` on them to the host.
    fn number_binary(&mut self, op: NumberOp) -> (r: ErrorResult<Option<Step>>)
        requires
            old(self).wf(),
        ensures
            final(self).wf(),
            final(self).chunk == old(self).chunk,
            final(self).ip == old(self).ip,
            final(self).current_instruction == old(self).current_instruction,
            final(self).global_names == old(self).global_names,
            final(self).global_values == old(self).global_values,
            r is Ok ==> final(self).stack_view() == old(self).stack_view().drop_last().drop_last(),
            reported(r),
            r is Err <==> !(old(self).stack().len() >= 2 && old(self).stack().last() is Number
                && old(self).stack().drop_last().last() is Number) || old(self).stack().len() < 2,
            old(self).stack().len() < 2 ==> r is Err && r->Err_0@ == error_text(
                old(self).current_instruction.line as nat,
                "Stack underflow."@,
            ),
            (old(self).stack().len() >= 2 && r is Err) ==> r->Err_0@ == error_text(
                old(self).current_instruction.line as nat,
                "Operands must be numbers."@,
            ),
            r is Ok ==> final(self).stack() == old(self).stack().drop_last().drop_last() && r->Ok_0 == Some(
                Step::Binary(
                    op,
                    old(self).stack().drop_last().last()->Number_0,
                    old(self).stack().last()->Number_0,
                ),
            ),
    {
        if self.stack.len() < 2 {
            return Err(error_message(self.current_instruction.line, "Stack underflow."));
        }
        if !self.peek(0).is_number() || !self.peek(1).is_number() {
            return Err(error_message(self.current_instruction.line, "Operands must be numbers."));
        }
        let b = self.pop_value();
        let a = self.pop_value();
        match (a, b) {
            (Value::Number(a), Value::Number(b)) => Ok(Some(Step::Binary(op, a, b))),
            // both were checked to be numbers above
            _ => Ok(None),
        }
    }

    /// Executes one instruction. `Ok(None)`: go on with the next one;
    /// `Ok(Some(step))`: the host has work to do, or the code has ended.
    pub fn step(&mut self) -> (r: ErrorResult<Option<Step>>)
        requires
            old(self).wf(),
        ensures
            final(self).wf(),
            final(self).code() == old(self).code(),
            r matches Ok(None) ==> final(self).position() > old(self).position(),
            reported(r),
            r is Ok ==> final(self).position() == old(self).position() + width(old(self).next_op()->0),
            (old(self).on_whole_code() && r is Ok) ==> final(self).on_whole_code(),
            step_outcome(r) == step_spec(old(self).code(), old(self).pool(), old(self).mstate()).1,
            r is Ok ==> final(self).mstate() == step_spec(old(self).code(), old(self).pool(), old(self).mstate()).0,
            final(self).pool() == old(self).pool(),
            old(self).next_op() is None ==> r is Err,
            old(self).next_op() == Some(OpCode::Return) ==> r == Ok::<Option<Step>, String>(Some(Step::Halt)),
            (old(self).next_op() == Some(OpCode::Not) && old(self).stack().len() >= 1) ==> r == Ok::<Option<Step>, String>(None)
                    && final(self).stack() == old(self).stack().drop_last().push(Value::Bool(is_falsey(old(self).stack().last()))),
            (old(self).next_op() == Some(OpCode::Pop) && old(self).stack().len() >= 1) ==> r == Ok::<Option<Step>, String>(None)
                    && final(self).stack() == old(self).stack().drop_last(),
            (old(self).next_op() == Some(OpCode::Nil) && old(self).stack().len() < STACK_MAX) ==> r == Ok::<Option<Step>, String>(None)
                    && final(self).stack() == old(self).stack().push(Value::Nil),
            (old(self).next_op() == Some(OpCode::True) && old(self).stack().len() < STACK_MAX) ==> r == Ok::<Option<Step>, String>(None)
                    && final(self).stack() == old(self).stack().push(Value::Bool(true)),
            (old(self).next_op() == Some(OpCode::False) && old(self).stack().len() < STACK_MAX) ==> r == Ok::<Option<Step>, String>(None)
                    && final(self).stack() == old(self).stack().push(Value::Bool(false)),
            (old(self).next_op() == Some(OpCode::Constant) && old(self).operand_ok() && old(self).stack().len() < STACK_MAX) ==> r
                    == Ok::<Option<Step>, String>(None) && final(self).stack() == old(self).stack().push(old(self).operand_constant()),
            (old(self).next_op() == Some(OpCode::Negate) && old(self).stack().len() >= 1) ==> if old(self).stack().last() is Number {
                    r == Ok::<Option<Step>, String>(Some(Step::Negate(old(self).stack().last()->Number_0)))
                        && final(self).stack() == old(self).stack().drop_last()
                } else {
                    r is Err && r->Err_0@ == error_text(old(self).next_line(), "Operand(s) must be a number."@)
                },
            (old(self).next_op() == Some(OpCode::Print) && old(self).stack().len() >= 1) ==> final(self).stack() == old(self).stack().drop_last() && if old(self).stack().last() is Number {
                    r == Ok::<Option<Step>, String>(Some(Step::PrintNumber(old(self).stack().last()->Number_0)))
                } else {
                    r matches Ok(Some(Step::Output(t))) && t@ == display_text(old(self).stack().last()) + "\n"@
                },
            (old(self).next_op() == Some(OpCode::Equal) && old(self).stack().len() >= 2) ==> if old(self).stack()[old(self).stack().len() - 2] is Number && old(self).stack().last() is Number {
                    r == Ok::<Option<Step>, String>(Some(Step::Binary(NumberOp::Equal, old(self).stack()[old(self).stack().len() - 2]->Number_0, old(self).stack().last()->Number_0)))
                        && final(self).stack() == old(self).stack().drop_last().drop_last()
                } else {
                    r == Ok::<Option<Step>, String>(None) && final(self).stack() == old(self).stack().drop_last().drop_last().push(
                        Value::Bool(same_value(old(self).stack()[old(self).stack().len() - 2], old(self).stack().last())),
                    )
                },
            (old(self).next_op() == Some(OpCode::Add) && old(self).stack().len() >= 2) ==> if old(self).stack()[old(self).stack().len() - 2] is String && old(self).stack().last() is String {
                    &&& r == Ok::<Option<Step>, String>(None)
                    &&& final(self).stack().len() == old(self).stack().len() - 1
                    &&& final(self).stack().drop_last() == old(self).stack().drop_last().drop_last()
                    &&& final(self).stack().last() is String
                    &&& final(self).stack().last()->String_0@ == old(self).stack()[old(self).stack().len() - 2]->String_0@ + old(self).stack().last()->String_0@
                } else if old(self).stack()[old(self).stack().len() - 2] is Number && old(self).stack().last() is Number {
                    r == Ok::<Option<Step>, String>(Some(Step::Binary(NumberOp::Add, old(self).stack()[old(self).stack().len() - 2]->Number_0, old(self).stack().last()->Number_0)))
                        && final(self).stack() == old(self).stack().drop_last().drop_last()
                } else {
                    r is Err && r->Err_0@ == error_text(old(self).next_line(), "Invalid operands."@)
                },
            (old(self).next_op() matches Some(o) && number_op(o) is Some && old(self).stack().len() >= 2) ==> if old(self).stack()[old(self).stack().len() - 2] is Number && old(self).stack().last() is Number {
                    r == Ok::<Option<Step>, String>(Some(Step::Binary(number_op(old(self).next_op()->0)->0, old(self).stack()[old(self).stack().len() - 2]->Number_0, old(self).stack().last()->Number_0)))
                        && final(self).stack() == old(self).stack().drop_last().drop_last()
                } else {
                    r is Err && r->Err_0@ == error_text(old(self).next_line(), "Operands must be numbers."@)
                },
            (old(self).next_op() == Some(OpCode::GetGlobal) && old(self).operand_ok()) ==> match old(self).global(display_text(old(self).operand_constant())) {
                    None => r is Err && r->Err_0@ == error_text(old(self).next_line(), undefined_message(display_text(old(self).operand_constant()))),
                    Some(v) => old(self).stack().len() < STACK_MAX ==> r == Ok::<Option<Step>, String>(None) && final(self).stack() == old(self).stack().push(v),
                },
            (old(self).next_op() == Some(OpCode::SetGlobal) && old(self).operand_ok() && old(self).global(display_text(old(self).operand_constant())) is None) ==>
                    r is Err && r->Err_0@ == error_text(old(self).next_line(), undefined_message(display_text(old(self).operand_constant()))),
            (old(self).next_op() == Some(OpCode::DefineGlobal) && old(self).operand_ok() && old(self).stack().len() >= 1) ==> {
                &&& r == Ok::<Option<Step>, String>(None)
                &&& final(self).stack() == old(self).stack().drop_last()
                &&& final(self).global(display_text(old(self).operand_constant())) == Some(old(self).stack().last())
                &&& forall|n: Seq<char>| n != display_text(old(self).operand_constant()) ==> final(self).global(n) == old(self).global(n)
            },
            (old(self).next_op() == Some(OpCode::SetGlobal) && old(self).operand_ok() && old(self).stack().len() >= 1
                && old(self).global(display_text(old(self).operand_constant())) is Some) ==> {
                &&& r == Ok::<Option<Step>, String>(None)
                &&& final(self).stack() == old(self).stack()
                &&& final(self).global(display_text(old(self).operand_constant())) == Some(old(self).stack().last())
                &&& forall|n: Seq<char>| n != display_text(old(self).operand_constant()) ==> final(self).global(n) == old(self).global(n)
            },
    {
        proof {
            assert(self.pool().len() == self.chunk.constants().len());
            assert(self.stack_view().len() == self.stack@.len());
            if self.stack@.len() > 0 {
                assert(self.stack_view().last() == self.stack@.last()@);
            }
            if self.stack@.len() > 1 {
                assert(self.stack_view()[self.stack@.len() - 2] == self.stack@[self.stack@.len() - 2]@);
            }
            if self.ip + 1 < self.chunk.code().len() && (self.chunk.code()[self.ip + 1].byte as nat)
                < self.chunk.constants().len() {
                let c = self.chunk.constants()[self.chunk.code()[self.ip + 1].byte as int];
                assert(self.pool()[self.chunk.code()[self.ip + 1].byte as int] == c@);
            }
            if self.on_whole_code() && self.ip < self.chunk.code().len() {
                let bytes = code_bytes(self.chunk.code());
                lemma_code_ok_at(bytes, self.chunk.constants(), self.ip as nat);
                assert(bytes[self.ip as int] == self.chunk.code()[self.ip as int].byte);
            }
        }
        let byte = match self.read_byte() {
            Some(b) => b,
            None => {
                return Err(error_message(self.current_instruction.line, "Ran past the end of the code."));
            },
        };
        self.current_instruction = byte;
        let line = byte.line;
        let op = match OpCode::from_byte(byte.byte) {
            Some(op) => op,
            None => {
                return Err(error_message(line, "Unknown instruction."));
            },
        };
        match op {
            OpCode::Return => Ok(Some(Step::Halt)),
            OpCode::Constant => {
                let c = self.read_constant();
                match c {
                    None => Err(error_message(line, "Invalid constant operand.")),
                    Some(v) => {
                        if self.stack.len() >= STACK_MAX {
                            return Err(error_message(line, "Stack overflow."));
                        }
                        self.push_value(v);
                        Ok(None)
                    },
                }
            },
            OpCode::Nil | OpCode::True | OpCode::False => {
                if self.stack.len() >= STACK_MAX {
                    return Err(error_message(line, "Stack overflow."));
                }
                let v = match op {
                    OpCode::True => Value::Bool(true),
                    OpCode::False => Value::Bool(false),
                    _ => Value::Nil,
                };
                self.push_value(v);
                Ok(None)
            },
            OpCode::Negate => {
                if self.stack.len() < 1 {
                    return Err(error_message(line, "Stack underflow."));
                }
                if !self.peek(0).is_number() {
                    return Err(error_message(line, "Operand(s) must be a number."));
                }
                match self.pop_value() {
                    Value::Number(t) => Ok(Some(Step::Negate(t))),
                    _ => Err(error_message(line, "Operand(s) must be a number.")),
                }
            },
            OpCode::Add => {
                if self.stack.len() < 2 {
                    return Err(error_message(line, "Stack underflow."));
                }
                if self.peek(0).is_string() && self.peek(1).is_string() {
                    self.concat();
                    Ok(None)
                } else if self.peek(0).is_number() && self.peek(1).is_number() {
                    self.number_binary(NumberOp::Add)
                } else {
                    Err(error_message(line, "Invalid operands."))
                }
            },
            OpCode::Subtract => self.number_binary(NumberOp::Subtract),
            OpCode::Multiply => self.number_binary(NumberOp::Multiply),
            OpCode::Divide => self.number_binary(NumberOp::Divide),
            OpCode::Greater => self.number_binary(NumberOp::Greater),
            OpCode::Less => self.number_binary(NumberOp::Less),
            OpCode::Not => {
                if self.stack.len() < 1 {
                    return Err(error_message(line, "Stack underflow."));
                }
                let v = self.pop_value();
                let falsey = v.is_falsey();
                self.push_value(Value::Bool(falsey));
                Ok(None)
            },
            OpCode::Equal => {
                if self.stack.len() < 2 {
                    return Err(error_message(line, "Stack underflow."));
                }
                let b = self.pop_value();
                let a = self.pop_value();
                match (a, b) {
                    (Value::Number(x), Value::Number(y)) => Ok(Some(Step::Binary(NumberOp::Equal, x, y))),
                    (a, b) => {
                        let eq = values_equal(&a, &b);
                        self.push_value(Value::Bool(eq));
                        Ok(None)
                    },
                }
            },
            OpCode::Print => {
                if self.stack.len() < 1 {
                    return Err(error_message(line, "Stack underflow."));
                }
                let v = self.pop_value();
                if let Value::Number(t) = v {
                    Ok(Some(Step::PrintNumber(t)))
                } else {
                    let mut text = v.to_text();
                    text.append("\n");
                    Ok(Some(Step::Output(text)))
                }
            },
            OpCode::Pop => {
                if self.stack.len() < 1 {
                    return Err(error_message(line, "Stack underflow."));
                }
                self.pop_value();
                Ok(None)
            },
            OpCode::DefineGlobal => {
                let name = match self.read_string() {
                    Some(n) => n,
                    None => {
                        return Err(error_message(line, "Invalid constant operand."));
                    },
                };
                if self.stack.len() < 1 {
                    return Err(error_message(line, "Stack underflow."));
                }
                let value = self.peek(0);
                let ghost val_copy = value;
                let ghost before = *self;
                let ghost nm = name@;
                let found = self.find_global(&name);
                let ghost k: int = match found {
                    Some(i) => i as int,
                    None => self.global_names@.len() as int,
                };
                match found {
                    Some(i) => {
                        self.global_values.set(i, value);
                    },
                    None => {
                        self.global_names.push(name);
                        self.global_values.push(value);
                    },
                }
                self.pop_value();
                proof {
                    assert(self.global_names@[k]@ == nm);
                    self.lemma_global_at(k);
                    assert forall|n: Seq<char>| n != nm implies self.global(n) == old(self).global(n) by {
                        if exists|j: int| 0 <= j < before.global_names@.len() && before.global_names@[j]@ == n {
                            let j = choose|j: int| 0 <= j < before.global_names@.len() && before.global_names@[j]@ == n;
                            old(self).lemma_global_at(j);
                            self.lemma_global_at(j);
                        } else {
                            old(self).lemma_global_absent(n);
                            self.lemma_global_absent(n);
                        }
                    }
                    assert(self.global(nm) == Some(val_copy));
                    assert(val_copy@ == old(self).stack_view().last());
                    let gn = globals_of(self.global_names@, self.global_values@);
                    let go = globals_of(old(self).global_names@, old(self).global_values@).insert(
                        nm,
                        old(self).stack_view().last(),
                    );
                    assert forall|n: Seq<char>| #[trigger] gn.dom().contains(n) == go.dom().contains(n) && (gn.dom().contains(n)
                        ==> gn[n] == go[n]) by {
                        if n != nm {
                            assert(self.global(n) == old(self).global(n));
                        }
                    }
                    assert(gn =~= go);
                }
                Ok(None)
            },
            OpCode::GetGlobal | OpCode::SetGlobal => {
                let name = match self.read_string() {
                    Some(n) => n,
                    None => {
                        return Err(error_message(line, "Invalid constant operand."));
                    },
                };
                match self.find_global(&name) {
                    None => {
                        proof {
                            self.lemma_global_absent(name@);
                            assert(!globals_of(self.global_names@, self.global_values@).contains_key(name@));
                        }
                        let mut message = String::from_str("Undefined variable ");
                        message.append(name.as_str());
                        Err(error_message(line, message.as_str()))
                    },
                    Some(i) => {
                        proof {
                            self.lemma_global_at(i as int);
                        }
                        if op == OpCode::GetGlobal {
                            if self.stack.len() >= STACK_MAX {
                                return Err(error_message(line, "Stack overflow."));
                            }
                            let v = self.global_values[i].duplicate();
                            self.push_value(v);
                        } else {
                            if self.stack.len() < 1 {
                                return Err(error_message(line, "Stack underflow."));
                            }
                            let v = self.peek(0);
                            self.global_values.set(i, v);
                            proof {
                                let nm = name@;
                                self.lemma_global_at(i as int);
                                assert forall|n: Seq<char>| n != nm implies self.global(n) == old(self).global(n) by {
                                    if exists|j: int| 0 <= j < self.global_names@.len() && self.global_names@[j]@ == n {
                                        let j = choose|j: int| 0 <= j < self.global_names@.len() && self.global_names@[j]@ == n;
                                        old(self).lemma_global_at(j);
                                        self.lemma_global_at(j);
                                    } else {
                                        old(self).lemma_global_absent(n);
                                        self.lemma_global_absent(n);
                                    }
                                }
                                assert(globals_of(self.global_names@, self.global_values@) =~= globals_of(
                                    old(self).global_names@,
                                    old(self).global_values@,
                                ).insert(nm, old(self).stack_view().last()));
                            }
                        }
                        Ok(None)
                    },
                }
            },
        }
    }
}

} // verus!
