//! Compiled code: a byte stream tagged with source lines, and a constant pool.
use vstd::prelude::*;
use crate::value::Value;

verus! {

/// An instruction of the stack machine. `Constant`, `DefineGlobal`,
/// `GetGlobal` and `SetGlobal` are followed by one operand byte: an index
/// into the constant pool.
#[derive(PartialEq, Eq, Structural, Clone, Copy, Debug)]
pub enum OpCode {
    Return,
    Constant,
    Nil,
    True,
    False,
    Negate,
    Add,
    Subtract,
    Multiply,
    Divide,
    Not,
    Equal,
    Greater,
    Less,
    Print,
    Pop,
    DefineGlobal,
    GetGlobal,
    SetGlobal,
}

/// The byte that encodes an instruction: its position in the list above.
pub open spec fn opcode_byte(op: OpCode) -> u8 {
    match op {
        OpCode::Return => 0,
        OpCode::Constant => 1,
        OpCode::Nil => 2,
        OpCode::True => 3,
        OpCode::False => 4,
        OpCode::Negate => 5,
        OpCode::Add => 6,
        OpCode::Subtract => 7,
        OpCode::Multiply => 8,
        OpCode::Divide => 9,
        OpCode::Not => 10,
        OpCode::Equal => 11,
        OpCode::Greater => 12,
        OpCode::Less => 13,
        OpCode::Print => 14,
        OpCode::Pop => 15,
        OpCode::DefineGlobal => 16,
        OpCode::GetGlobal => 17,
        OpCode::SetGlobal => 18,
    }
}

/// The instruction that a byte encodes, if any.
pub open spec fn decode_opcode(b: u8) -> Option<OpCode> {
    if b == 0 { Some(OpCode::Return) }
    else if b == 1 { Some(OpCode::Constant) }
    else if b == 2 { Some(OpCode::Nil) }
    else if b == 3 { Some(OpCode::True) }
    else if b == 4 { Some(OpCode::False) }
    else if b == 5 { Some(OpCode::Negate) }
    else if b == 6 { Some(OpCode::Add) }
    else if b == 7 { Some(OpCode::Subtract) }
    else if b == 8 { Some(OpCode::Multiply) }
    else if b == 9 { Some(OpCode::Divide) }
    else if b == 10 { Some(OpCode::Not) }
    else if b == 11 { Some(OpCode::Equal) }
    else if b == 12 { Some(OpCode::Greater) }
    else if b == 13 { Some(OpCode::Less) }
    else if b == 14 { Some(OpCode::Print) }
    else if b == 15 { Some(OpCode::Pop) }
    else if b == 16 { Some(OpCode::DefineGlobal) }
    else if b == 17 { Some(OpCode::GetGlobal) }
    else if b == 18 { Some(OpCode::SetGlobal) }
    else { None }
}

/// Decoding an instruction's byte gives the instruction back, and a byte
/// that decodes is the encoding of what it decodes to.
pub proof fn lemma_opcode_round_trip(op: OpCode, b: u8)
    ensures
        decode_opcode(opcode_byte(op)) == Some(op),
        decode_opcode(b) matches Some(o) ==> opcode_byte(o) == b,
{
}

/// Whether an instruction is followed by an operand byte.
pub open spec fn takes_operand(op: OpCode) -> bool {
    op == OpCode::Constant || names_variable(op)
}

/// Whether an instruction's operand names a global variable.
pub open spec fn names_variable(op: OpCode) -> bool {
    op == OpCode::DefineGlobal || op == OpCode::GetGlobal || op == OpCode::SetGlobal
}

/// Code that splits into whole instructions, each of whose operands names a
/// constant of `pool`, and a string where it names a variable.
pub open spec fn code_ok(code: Seq<u8>, pool: Seq<Value>) -> bool
    decreases code.len(),
{
    if code.len() == 0 {
        true
    } else {
        match decode_opcode(code[0]) {
            None => false,
            Some(op) => if takes_operand(op) {
                &&& code.len() >= 2
                &&& (code[1] as nat) < pool.len()
                &&& names_variable(op) ==> pool[code[1] as int] is String
                &&& code_ok(code.skip(2), pool)
            } else {
                code_ok(code.skip(1), pool)
            },
        }
    }
}

/// Whole instructions followed by whole instructions are whole instructions.
pub proof fn lemma_code_ok_append(a: Seq<u8>, b: Seq<u8>, pool: Seq<Value>)
    requires
        code_ok(a, pool),
        code_ok(b, pool),
    ensures
        code_ok(a + b, pool),
    decreases a.len(),
{
    if a.len() == 0 {
        assert(a + b =~= b);
    } else {
        let op = decode_opcode(a[0])->0;
        assert((a + b)[0] == a[0]);
        if takes_operand(op) {
            assert((a + b)[1] == a[1]);
            lemma_code_ok_append(a.skip(2), b, pool);
            assert((a + b).skip(2) =~= a.skip(2) + b);
        } else {
            lemma_code_ok_append(a.skip(1), b, pool);
            assert((a + b).skip(1) =~= a.skip(1) + b);
        }
    }
}

/// Adding constants to the pool keeps code whole.
pub proof fn lemma_code_ok_grow(code: Seq<u8>, pool: Seq<Value>, more: Seq<Value>)
    requires
        code_ok(code, pool),
        pool.len() <= more.len(),
        forall|i: int| 0 <= i < pool.len() ==> more[i] == pool[i],
    ensures
        code_ok(code, more),
    decreases code.len(),
{
    if code.len() > 0 {
        let op = decode_opcode(code[0])->0;
        if takes_operand(op) {
            lemma_code_ok_grow(code.skip(2), pool, more);
        } else {
            lemma_code_ok_grow(code.skip(1), pool, more);
        }
    }
}

/// One instruction without an operand is whole.
pub proof fn lemma_code_ok_single(b: u8, pool: Seq<Value>)
    requires
        decode_opcode(b) matches Some(op) && !takes_operand(op),
    ensures
        code_ok(seq![b], pool),
{
    assert(seq![b].skip(1) =~= Seq::<u8>::empty());
    assert(code_ok(seq![b].skip(1), pool));
}

/// One instruction with a fitting operand is whole.
pub proof fn lemma_code_ok_pair(b: u8, operand: u8, pool: Seq<Value>)
    requires
        decode_opcode(b) matches Some(op) && takes_operand(op),
        (operand as nat) < pool.len(),
        decode_opcode(b) matches Some(op) && (names_variable(op) ==> pool[operand as int] is String),
    ensures
        code_ok(seq![b, operand], pool),
{
    assert(seq![b, operand].skip(2) =~= Seq::<u8>::empty());
    assert(code_ok(seq![b, operand].skip(2), pool));
}

/// How many values an instruction leaves on the stack, less those it takes.
pub open spec fn op_effect(op: OpCode) -> int {
    match op {
        OpCode::Constant | OpCode::Nil | OpCode::True | OpCode::False | OpCode::GetGlobal => 1,
        OpCode::Add | OpCode::Subtract | OpCode::Multiply | OpCode::Divide => -1,
        OpCode::Equal | OpCode::Greater | OpCode::Less => -1,
        OpCode::Print | OpCode::Pop | OpCode::DefineGlobal => -1,
        OpCode::Negate | OpCode::Not | OpCode::SetGlobal | OpCode::Return => 0,
    }
}

/// The net change in stack depth that running `code` straight through makes.
pub open spec fn effect(code: Seq<u8>) -> int
    decreases code.len(),
{
    if code.len() == 0 {
        0
    } else {
        match decode_opcode(code[0]) {
            None => 0,
            Some(op) => if takes_operand(op) {
                if code.len() < 2 {
                    0
                } else {
                    op_effect(op) + effect(code.skip(2))
                }
            } else {
                op_effect(op) + effect(code.skip(1))
            },
        }
    }
}

/// The effect of whole instructions followed by more code adds up.
pub proof fn lemma_effect_append(a: Seq<u8>, b: Seq<u8>, pool: Seq<Value>)
    requires
        code_ok(a, pool),
    ensures
        effect(a + b) == effect(a) + effect(b),
    decreases a.len(),
{
    if a.len() == 0 {
        assert(a + b =~= b);
    } else {
        let op = decode_opcode(a[0])->0;
        assert((a + b)[0] == a[0]);
        if takes_operand(op) {
            lemma_effect_append(a.skip(2), b, pool);
            assert((a + b).skip(2) =~= a.skip(2) + b);
        } else {
            lemma_effect_append(a.skip(1), b, pool);
            assert((a + b).skip(1) =~= a.skip(1) + b);
        }
    }
}

/// The effect of one instruction, with its operand if it takes one.
pub proof fn lemma_effect_single(b: u8, operand: u8)
    requires
        decode_opcode(b) is Some,
    ensures
        !takes_operand(decode_opcode(b)->0) ==> effect(seq![b]) == op_effect(decode_opcode(b)->0),
        takes_operand(decode_opcode(b)->0) ==> effect(seq![b, operand]) == op_effect(decode_opcode(b)->0),
{
    assert(seq![b].skip(1) =~= Seq::<u8>::empty());
    assert(effect(seq![b].skip(1)) == 0);
    assert(seq![b, operand].skip(2) =~= Seq::<u8>::empty());
    assert(effect(seq![b, operand].skip(2)) == 0);
}

/// The width of an instruction: one byte, two with an operand.
pub open spec fn width(op: OpCode) -> nat {
    if takes_operand(op) { 2 } else { 1 }
}

/// Code that is whole from `p` on decodes there, has its operand there, and
/// is whole again after the instruction at `p`.
pub proof fn lemma_code_ok_at(code: Seq<u8>, pool: Seq<Value>, p: nat)
    requires
        p < code.len(),
        code_ok(code.skip(p as int), pool),
    ensures
        decode_opcode(code[p as int]) is Some,
        takes_operand(decode_opcode(code[p as int])->0) ==> p + 1 < code.len() && (code[p + 1int] as nat) < pool.len(),
        p + width(decode_opcode(code[p as int])->0) <= code.len(),
        code_ok(code.skip(p + width(decode_opcode(code[p as int])->0) as int), pool),
{
    let rest = code.skip(p as int);
    assert(rest[0] == code[p as int]);
    let op = decode_opcode(code[p as int])->0;
    if takes_operand(op) {
        assert(rest[1] == code[p + 1int]);
        assert(rest.skip(2) =~= code.skip(p + 2int));
    } else {
        assert(rest.skip(1) =~= code.skip(p + 1int));
    }
}

/// No instruction of whole code is `Return`.
pub open spec fn no_return(code: Seq<u8>) -> bool
    decreases code.len(),
{
    if code.len() == 0 {
        true
    } else {
        match decode_opcode(code[0]) {
            None => true,
            Some(op) => op != OpCode::Return && if takes_operand(op) {
                code.len() < 2 || no_return(code.skip(2))
            } else {
                no_return(code.skip(1))
            },
        }
    }
}

/// Whole code without `Return` followed by code without `Return` has none.
pub proof fn lemma_no_return_append(a: Seq<u8>, b: Seq<u8>, pool: Seq<Value>)
    requires
        code_ok(a, pool),
        no_return(a),
        no_return(b),
    ensures
        no_return(a + b),
    decreases a.len(),
{
    if a.len() == 0 {
        assert(a + b =~= b);
    } else {
        let op = decode_opcode(a[0])->0;
        assert((a + b)[0] == a[0]);
        if takes_operand(op) {
            lemma_no_return_append(a.skip(2), b, pool);
            assert((a + b).skip(2) =~= a.skip(2) + b);
        } else {
            lemma_no_return_append(a.skip(1), b, pool);
            assert((a + b).skip(1) =~= a.skip(1) + b);
        }
    }
}

/// One instruction other than `Return`, with its operand if it takes one.
pub proof fn lemma_no_return_single(b: u8, operand: u8)
    requires
        decode_opcode(b) matches Some(op) && op != OpCode::Return,
    ensures
        !takes_operand(decode_opcode(b)->0) ==> no_return(seq![b]),
        takes_operand(decode_opcode(b)->0) ==> no_return(seq![b, operand]),
{
    assert(seq![b].skip(1) =~= Seq::<u8>::empty());
    assert(no_return(seq![b].skip(1)));
    assert(seq![b, operand].skip(2) =~= Seq::<u8>::empty());
    assert(no_return(seq![b, operand].skip(2)));
}

impl OpCode {
    pub fn to_byte(self) -> (r: u8)
        ensures
            r == opcode_byte(self),
    {
        match self {
            OpCode::Return => 0,
            OpCode::Constant => 1,
            OpCode::Nil => 2,
            OpCode::True => 3,
            OpCode::False => 4,
            OpCode::Negate => 5,
            OpCode::Add => 6,
            OpCode::Subtract => 7,
            OpCode::Multiply => 8,
            OpCode::Divide => 9,
            OpCode::Not => 10,
            OpCode::Equal => 11,
            OpCode::Greater => 12,
            OpCode::Less => 13,
            OpCode::Print => 14,
            OpCode::Pop => 15,
            OpCode::DefineGlobal => 16,
            OpCode::GetGlobal => 17,
            OpCode::SetGlobal => 18,
        }
    }

    pub fn from_byte(b: u8) -> (r: Option<OpCode>)
        ensures
            r == decode_opcode(b),
    {
        match b {
            0 => Some(OpCode::Return),
            1 => Some(OpCode::Constant),
            2 => Some(OpCode::Nil),
            3 => Some(OpCode::True),
            4 => Some(OpCode::False),
            5 => Some(OpCode::Negate),
            6 => Some(OpCode::Add),
            7 => Some(OpCode::Subtract),
            8 => Some(OpCode::Multiply),
            9 => Some(OpCode::Divide),
            10 => Some(OpCode::Not),
            11 => Some(OpCode::Equal),
            12 => Some(OpCode::Greater),
            13 => Some(OpCode::Less),
            14 => Some(OpCode::Print),
            15 => Some(OpCode::Pop),
            16 => Some(OpCode::DefineGlobal),
            17 => Some(OpCode::GetGlobal),
            18 => Some(OpCode::SetGlobal),
            _ => None,
        }
    }
}

/// The constant pool.
pub struct ValueArray {
    values: Vec<Value>,
}

impl ValueArray {
    pub closed spec fn view_values(&self) -> Seq<Value> {
        self.values@
    }

    pub fn new() -> (r: Self)
        ensures
            r.view_values() == Seq::<Value>::empty(),
    {
        Self { values: Vec::new() }
    }

    /// Appends a value and returns its index.
    pub fn write_value(&mut self, value: Value) -> (r: u8)
        requires
            old(self).view_values().len() < 256,
        ensures
            final(self).view_values() == old(self).view_values().push(value),
            r as nat == old(self).view_values().len(),
    {
        self.values.push(value);
        (self.values.len() - 1) as u8
    }

    pub fn get_value(&self, idx: u8) -> (r: Value)
        requires
            (idx as nat) < self.view_values().len(),
        ensures
            r == self.view_values()[idx as int],
    {
        self.values[idx as usize].duplicate()
    }

    pub fn len(&self) -> (r: usize)
        ensures
            r == self.view_values().len(),
    {
        self.values.len()
    }
}

/// One byte of code and the source line it came from.
#[derive(Clone, Copy, Debug, PartialEq, Eq, Structural)]
pub struct Byte {
    pub byte: u8,
    pub line: usize,
}

impl Byte {
    pub fn new(byte: u8, line: usize) -> (r: Self)
        ensures
            r.byte == byte,
            r.line == line,
    {
        Self { byte, line }
    }
}

/// A compiled unit: code bytes with their lines, and the constants they name.
pub struct Chunk {
    code: Vec<Byte>,
    value_array: ValueArray,
}

impl Chunk {
    /// The code bytes.
    pub closed spec fn code(&self) -> Seq<Byte> {
        self.code@
    }

    /// The constant pool.
    pub closed spec fn constants(&self) -> Seq<Value> {
        self.value_array.view_values()
    }

    pub fn new() -> (r: Self)
        ensures
            r.code() == Seq::<Byte>::empty(),
            r.constants() == Seq::<Value>::empty(),
    {
        Self { code: Vec::new(), value_array: ValueArray::new() }
    }

    pub fn write_byte(&mut self, byte: Byte)
        ensures
            final(self).code() == old(self).code().push(byte),
            final(self).constants() == old(self).constants(),
    {
        self.code.push(byte);
    }

    /// Appends a constant and returns its index.
    pub fn write_value(&mut self, value: Value) -> (r: u8)
        requires
            old(self).constants().len() < 256,
        ensures
            final(self).constants() == old(self).constants().push(value),
            final(self).code() == old(self).code(),
            r as nat == old(self).constants().len(),
    {
        self.value_array.write_value(value)
    }

    pub fn get_byte(&self, idx: usize) -> (r: Byte)
        requires
            idx < self.code().len(),
        ensures
            r == self.code()[idx as int],
    {
        self.code[idx]
    }

    pub fn get_value(&self, idx: u8) -> (r: Value)
        requires
            (idx as nat) < self.constants().len(),
        ensures
            r == self.constants()[idx as int],
    {
        self.value_array.get_value(idx)
    }

    /// The number of code bytes.
    pub fn code_len(&self) -> (r: usize)
        ensures
            r == self.code().len(),
    {
        self.code.len()
    }

    /// The number of constants.
    pub fn constant_count(&self) -> (r: usize)
        ensures
            r == self.constants().len(),
    {
        self.value_array.len()
    }
}

} // verus!
